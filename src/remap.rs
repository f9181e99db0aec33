use vstd::prelude::*;

verus! {

/// Whether alpha `a` does not exceed `255 * d / m`, where `d * d == dsq`;
/// squared so that it stays on integers.
pub open spec fn alpha_fits(a: int, dsq: int, m: int) -> bool {
    (a * m) * (a * m) <= 65025 * dsq
}

/// The largest `a <= n` for which `alpha_fits` holds, or 0.
pub open spec fn floor_alpha(dsq: int, m: int, n: nat) -> int
    decreases n,
{
    if n == 0 {
        0
    } else if alpha_fits(n as int, dsq, m) {
        n as int
    } else {
        floor_alpha(dsq, m, (n - 1) as nat)
    }
}

/// The alpha of a squared distance `dsq` under the clamp `m`: the distance
/// `d` is clamped to `[0, m]` and mapped linearly onto `[0, 255]`, rounding
/// down, i.e. `floor(255 * min(d, m) / m)`.
pub open spec fn alpha_of(dsq: int, m: int) -> int {
    floor_alpha(dsq, m, 255)
}

proof fn lemma_fits_monotone(a: int, b: int, dsq: int, m: int)
    requires
        0 <= a <= b,
        m >= 0,
        alpha_fits(b, dsq, m),
    ensures
        alpha_fits(a, dsq, m),
{
    assert((a * m) * (a * m) <= (b * m) * (b * m)) by (nonlinear_arith)
        requires
            0 <= a <= b,
            m >= 0,
    ;
}

proof fn lemma_floor_alpha_at(dsq: int, m: int, lo: int, n: nat)
    requires
        0 <= lo <= n,
        m >= 0,
        alpha_fits(lo, dsq, m),
        lo == n || !alpha_fits(lo + 1, dsq, m),
    ensures
        floor_alpha(dsq, m, n) == lo,
    decreases n,
{
    if n as int > lo {
        if alpha_fits(n as int, dsq, m) {
            lemma_fits_monotone(lo + 1, n as int, dsq, m);
        }
        lemma_floor_alpha_at(dsq, m, lo, (n - 1) as nat);
    }
}

/// A distance of zero maps to alpha 0.
pub proof fn lemma_alpha_at_zero(m: int)
    requires
        m > 0,
    ensures
        alpha_of(0, m) == 0,
{
    assert((1 * m) * (1 * m) > 0) by (nonlinear_arith)
        requires
            m > 0,
    ;
    lemma_fits_at_zero(0, m);
    lemma_floor_alpha_at(0, m, 0, 255);
}

proof fn lemma_fits_at_zero(dsq: int, m: int)
    requires
        dsq >= 0,
    ensures
        alpha_fits(0, dsq, m),
{
    assert((0 * m) * (0 * m) == 0) by (nonlinear_arith);
}

/// A distance at or beyond the clamp maps to alpha 255.
pub proof fn lemma_alpha_beyond_clamp(dsq: int, m: int)
    requires
        m >= 0,
        dsq >= m * m,
    ensures
        alpha_of(dsq, m) == 255,
{
    assert((255 * m) * (255 * m) <= 65025 * dsq) by (nonlinear_arith)
        requires
            m >= 0,
            dsq >= m * m,
    ;
}

/// Every alpha lies in `[0, 255]`.
pub proof fn lemma_alpha_in_range(dsq: int, m: int)
    ensures
        0 <= alpha_of(dsq, m) <= 255,
{
    lemma_floor_alpha_bounds(dsq, m, 255);
}

proof fn lemma_floor_alpha_bounds(dsq: int, m: int, n: nat)
    ensures
        0 <= floor_alpha(dsq, m, n) <= n,
    decreases n,
{
    if n > 0 {
        lemma_floor_alpha_bounds(dsq, m, (n - 1) as nat);
    }
}

/// Maps the squared distance `dsq` to an alpha value under the clamp
/// `max_dist`: `floor(255 * min(sqrt(dsq), max_dist) / max_dist)`.
pub fn remap_alpha(dsq: u128, max_dist: u32) -> (r: u8)
    requires
        max_dist > 0,
    ensures
        r as int == alpha_of(dsq as int, max_dist as int),
{
    let m: u128 = max_dist as u128;
    assert(m * m < 0x1_0000_0000_0000_0000) by (nonlinear_arith)
        requires
            0 < m < 0x1_0000_0000,
    ;
    if dsq >= m * m {
        proof {
            lemma_alpha_beyond_clamp(dsq as int, m as int);
        }
        return 255;
    }
    proof {
        lemma_fits_at_zero(dsq as int, m as int);
    }
    let mut lo: u128 = 0;
    let mut hi: u128 = 256;
    while hi - lo > 1
        invariant
            0 <= lo < hi <= 256,
            0 < m < 0x1_0000_0000,
            dsq < m * m,
            m * m < 0x1_0000_0000_0000_0000,
            alpha_fits(lo as int, dsq as int, m as int),
            hi == 256 || !alpha_fits(hi as int, dsq as int, m as int),
        decreases hi - lo,
    {
        let mid: u128 = lo + (hi - lo) / 2;
        assert(mid * m < 0x100_0000_0000) by (nonlinear_arith)
            requires
                mid < 256,
                m < 0x1_0000_0000,
        ;
        let am: u128 = mid * m;
        assert(am * am < 0x1_0000_0000_0000_0000_0000) by (nonlinear_arith)
            requires
                am < 0x100_0000_0000,
        ;
        if am * am <= 65025 * dsq {
            lo = mid;
        } else {
            hi = mid;
        }
    }
    proof {
        assert(!alpha_fits(255, dsq as int, m as int)) by (nonlinear_arith)
            requires
                dsq < m * m,
        ;
        if hi == 256 {
            assert(lo == 255);
        }
        lemma_floor_alpha_at(dsq as int, m as int, lo as int, 255);
    }
    lo as u8
}

} // verus!
