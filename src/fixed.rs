use vstd::prelude::*;

use crate::ONE;

verus! {

/// The largest magnitude of a fixed-point coordinate that shapes accept
/// (2^24 pixels), which keeps every sum and product of coordinates in range.
pub const COORD_LIMIT: i64 = 0x100_0000_0000;

pub open spec fn in_range(v: int) -> bool {
    -COORD_LIMIT <= v <= COORD_LIMIT
}

/// The smallest whole pixel at or above `v / ONE`.
pub open spec fn ceil_spec(v: int) -> int {
    -((-v) / (ONE as int))
}

/// `v / ONE` rounded toward zero.
pub open spec fn trunc_spec(v: int) -> int {
    if v >= 0 {
        v / (ONE as int)
    } else {
        -((-v) / (ONE as int))
    }
}

/// `v / ONE` rounded down.
pub open spec fn floor_spec(v: int) -> int {
    v / (ONE as int)
}

pub fn ceil_px(v: i64) -> (r: i64)
    requires
        in_range(v as int),
    ensures
        r == ceil_spec(v as int),
        -0x1_0000_0000 <= r <= 0x1_0000_0000,
{
    if v >= 0 {
        let q = v / ONE;
        if v % ONE == 0 {
            assert(-v == -(q * ONE));
            assert((-v) / (ONE as int) == -q) by (nonlinear_arith)
                requires
                    -v == -(q * ONE),
            ;
            q
        } else {
            assert((-v) / (ONE as int) == -q - 1) by (nonlinear_arith)
                requires
                    v == q * ONE + v % ONE,
                    0 < v % ONE < ONE,
            ;
            q + 1
        }
    } else {
        let q = (-v) / ONE;
        -q
    }
}

pub fn trunc_px(v: i64) -> (r: i64)
    requires
        -0x10_0000_0000_0000 <= v <= 0x10_0000_0000_0000,
    ensures
        r == trunc_spec(v as int),
        -0x100_0000_0000 <= r <= 0x100_0000_0000,
        in_range(v as int) ==> -0x100_0001 <= r <= 0x100_0001,
{
    if v >= 0 {
        v / ONE
    } else {
        -((-v) / ONE)
    }
}

/// Whole pixel `v`, clamped into `[0, limit]`.
pub open spec fn clamp_spec(v: int, limit: int) -> int {
    if v < 0 {
        0
    } else if v > limit {
        limit
    } else {
        v
    }
}

pub fn clamp_px(v: i64, limit: usize) -> (r: usize)
    ensures
        r == clamp_spec(v as int, limit as int),
{
    if v < 0 {
        0
    } else if (v as u64) > (limit as u64) {
        limit
    } else {
        v as usize
    }
}

pub open spec fn abs_int(v: int) -> int {
    if v < 0 {
        -v
    } else {
        v
    }
}

/// `num / den` rounded toward zero, for `den > 0`.
pub open spec fn div_trunc(num: int, den: int) -> int {
    if num >= 0 {
        num / den
    } else {
        -((-num) / den)
    }
}

/// The remainder of `num / den` rounded toward zero: it takes the sign of `num`.
pub open spec fn rem_trunc(num: int, den: int) -> int {
    num - den * div_trunc(num, den)
}

/// `v · scale / ONE`, rounded toward zero.
pub fn scale_fx(v: i64, scale: i64) -> (r: i64)
    requires
        -ONE <= v <= ONE,
        in_range(scale as int),
    ensures
        r == div_trunc(v * scale, ONE as int),
        abs_int(r as int) <= abs_int(scale as int),
{
    assert(-COORD_LIMIT * ONE <= v * scale <= COORD_LIMIT * ONE) by (nonlinear_arith)
        requires
            -ONE <= v <= ONE,
            -COORD_LIMIT <= scale <= COORD_LIMIT,
    ;
    let p = v * scale;
    assert(abs_int(div_trunc(p as int, ONE as int)) <= abs_int(scale as int)) by (nonlinear_arith)
        requires
            p == v * scale,
            -ONE <= v <= ONE,
            ONE > 0,
    ;
    if p >= 0 {
        p / ONE
    } else {
        -((-p) / ONE)
    }
}

/// The remainder of `v / den` that takes the sign of `v` (as Rust's `%`).
pub fn rem_fx(v: i64, den: i64) -> (r: i64)
    requires
        den > 0,
        v > i64::MIN,
    ensures
        r == rem_trunc(v as int, den as int),
        abs_int(r as int) < den,
{
    if v >= 0 {
        assert(v % den == v - den * (v / den)) by (nonlinear_arith)
            requires
                den > 0,
                v >= 0,
        ;
        v % den
    } else {
        let u = -v;
        assert(u % den == u - den * (u / den)) by (nonlinear_arith)
            requires
                den > 0,
                u >= 0,
        ;
        assert(div_trunc(v as int, den as int) == -(u / den));
        assert(v - den * (-(u / den)) == -(u % den)) by (nonlinear_arith)
            requires
                u % den == u - den * (u / den),
                v == -u,
        ;
        -(u % den)
    }
}

/// `r` is the square root of `n` rounded down.
pub open spec fn is_root(n: int, r: int) -> bool {
    0 <= r && r * r <= n < (r + 1) * (r + 1)
}

/// The square root of `n`, rounded down.
pub open spec fn root(n: int) -> int {
    choose|r: int| is_root(n, r)
}

pub proof fn lemma_root_unique(n: int, a: int, b: int)
    requires
        is_root(n, a),
        is_root(n, b),
    ensures
        a == b,
{
    if a < b {
        assert((a + 1) * (a + 1) <= b * b) by (nonlinear_arith)
            requires
                0 <= a < b,
        ;
    } else if b < a {
        assert((b + 1) * (b + 1) <= a * a) by (nonlinear_arith)
            requires
                0 <= b < a,
        ;
    }
}

/// The square root of `n`, rounded down, by bisection.
pub fn isqrt(n: u128) -> (r: u64)
    requires
        n < 0x10_0000_0000_0000_0000_0000_0000,
    ensures
        is_root(n as int, r as int),
        r == root(n as int),
{
    let mut lo: u128 = 0;
    let mut hi: u128 = 0x4_0000_0000_0000;
    assert(hi * hi == 0x10_0000_0000_0000_0000_0000_0000);
    while lo + 1 < hi
        invariant
            lo < hi <= 0x4_0000_0000_0000,
            lo * lo <= n < hi * hi,
        decreases hi - lo,
    {
        let mid = lo + (hi - lo) / 2;
        assert(mid * mid <= 0x10_0000_0000_0000_0000_0000_0000) by (nonlinear_arith)
            requires
                mid <= 0x4_0000_0000_0000,
        ;
        if mid * mid <= n {
            lo = mid;
        } else {
            hi = mid;
        }
    }
    proof {
        assert(is_root(n as int, lo as int));
        lemma_root_unique(n as int, lo as int, root(n as int));
    }
    lo as u64
}

} // verus!
