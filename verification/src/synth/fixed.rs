//! Fixed-point units shared by the whole signal path.
//!
//! An amplitude or sample value of `SCALE` stands for 1.0; `-SCALE` stands
//! for -1.0.  Frequencies are integer millihertz, sample rates integer hertz,
//! and envelope segment times integer milliseconds.

use vstd::prelude::*;

verus! {

/// One full-scale unit: an amplitude of `SCALE` means 1.0.
pub const SCALE: i64 = 1_000_000;

/// Largest sample rate the core accepts, in hertz.
pub const MAX_SAMPLE_RATE_HZ: u64 = 1_000_000;

/// Largest oscillator frequency the core accepts, in millihertz (1 MHz tone).
pub const MAX_FREQ_MHZ: u64 = 1_000_000_000;

/// Largest envelope segment duration the core accepts, in milliseconds (one hour).
pub const MAX_TIME_MS: u64 = 3_600_000;

/// Division of a possibly negative value by `SCALE`, truncating toward zero,
/// as the executable code computes it.
pub open spec fn spec_tdiv_scale(v: int) -> int {
    if v >= 0 {
        v / (SCALE as int)
    } else {
        -((-v) / (SCALE as int))
    }
}

/// Divide a scaled product back down by `SCALE`, truncating toward zero.
pub fn tdiv_scale(v: i64) -> (r: i64)
    requires
        -4_000_000_000_000 <= v <= 4_000_000_000_000,
    ensures
        r == spec_tdiv_scale(v as int),
        v >= 0 ==> 0 <= r <= v,
        v < 0 ==> v <= r <= 0,
{
    if v >= 0 {
        let q: u64 = (v as u64) / (SCALE as u64);
        assert(q <= v);
        q as i64
    } else {
        let m: u64 = (-v) as u64;
        let q: u64 = m / (SCALE as u64);
        assert(q <= m);
        -(q as i64)
    }
}

/// Divide a non-negative scaled product back down by `SCALE`.
pub fn div_scale_nn(x: i64) -> (r: i64)
    requires
        0 <= x,
    ensures
        r == x as int / (SCALE as int),
        0 <= r <= x,
{
    let q: u64 = (x as u64) / (SCALE as u64);
    assert(q <= x);
    q as i64
}

/// The truncating division by `SCALE` of a value between two scaled bounds
/// lies between those bounds.
pub proof fn lemma_tdiv_scale_between(v: int, lo: int, hi: int)
    requires
        lo * SCALE <= v <= hi * SCALE,
    ensures
        lo <= spec_tdiv_scale(v) <= hi,
{
    let s = SCALE as int;
    if v >= 0 {
        assert(v / s >= lo) by (nonlinear_arith)
            requires
                lo * s <= v,
                s > 0,
                v >= 0,
        ;
        assert(v / s <= hi) by (nonlinear_arith)
            requires
                v <= hi * s,
                s > 0,
                v >= 0,
        ;
    } else {
        let m = -v;
        assert(m / s <= -lo) by (nonlinear_arith)
            requires
                lo * s <= -m,
                s > 0,
                m > 0,
        ;
        assert(hi >= 0 ==> -(m / s) <= hi) by (nonlinear_arith)
            requires
                m > 0,
                s > 0,
        ;
        assert(hi < 0 ==> m / s >= -hi) by (nonlinear_arith)
            requires
                -m <= hi * s,
                s > 0,
                m > 0,
        ;
    }
}

/// A value that is an exact multiple of `SCALE` divides back exactly.
pub proof fn lemma_tdiv_scale_exact(x: int)
    ensures
        spec_tdiv_scale(x * SCALE) == x,
{
    let s = SCALE as int;
    if x >= 0 {
        assert((x * s) / s == x) by (nonlinear_arith)
            requires
                s > 0,
                x >= 0,
        ;
    } else {
        assert((-(x * s)) == (-x) * s) by (nonlinear_arith);
        assert(((-x) * s) / s == -x) by (nonlinear_arith)
            requires
                s > 0,
                -x >= 0,
        ;
    }
}

} // verus!
