//! Fixed-point plane geometry: the scalar scale, truncating division as the
//! hardware performs it, an exact integer square root, and vector
//! normalization to a target length.

use vstd::prelude::*;

verus! {

/// Number of fixed-point sub-units in one world unit.  The value is divisible
/// by 60, so displacements of `speed / 60` per tick are exact.
pub const FP_SCALE: i64 = 3600;

/// Upper bound, in sub-units, on arena dimensions, entity sizes and speeds.
pub const MAX_DIM: i64 = 0x100_0000;

/// A plane vector in fixed-point sub-units.
#[derive(Clone, Copy, Debug, PartialEq, Eq, Structural)]
pub struct Vec2 {
    pub x: i64,
    pub y: i64,
}

/// Quotient rounded towards zero, the rounding of a hardware division.
pub open spec fn spec_div_trunc(a: int, d: int) -> int {
    if a >= 0 {
        a / d
    } else {
        -((-a) / d)
    }
}

/// Division rounded towards zero.
pub fn div_trunc(a: i64, d: i64) -> (r: i64)
    requires
        d > 0,
        a > i64::MIN,
    ensures
        r == spec_div_trunc(a as int, d as int),
        a >= 0 ==> 0 <= r <= a,
        a < 0 ==> a <= r <= 0,
{
    if a >= 0 {
        a / d
    } else {
        -((-a) / d)
    }
}

/// `r` is the integer square root of `n`, rounded down.
pub open spec fn is_sqrt_floor(n: int, r: int) -> bool {
    0 <= r && r * r <= n && n < (r + 1) * (r + 1)
}

/// The integer square root of `n`, rounded down.
pub open spec fn sqrt_floor(n: int) -> int {
    choose|r: int| is_sqrt_floor(n, r)
}

/// At most one integer satisfies `is_sqrt_floor` for a given radicand.
pub proof fn lemma_sqrt_floor_unique(n: int, r1: int, r2: int)
    requires
        is_sqrt_floor(n, r1),
        is_sqrt_floor(n, r2),
    ensures
        r1 == r2,
{
    if r1 < r2 {
        assert((r1 + 1) * (r1 + 1) <= r2 * r2) by (nonlinear_arith)
            requires
                0 <= r1,
                r1 + 1 <= r2,
        ;
    }
    if r2 < r1 {
        assert((r2 + 1) * (r2 + 1) <= r1 * r1) by (nonlinear_arith)
            requires
                0 <= r2,
                r2 + 1 <= r1,
        ;
    }
}

/// A witness for `is_sqrt_floor` is the value of `sqrt_floor`.
pub proof fn lemma_sqrt_floor_is(n: int, r: int)
    requires
        is_sqrt_floor(n, r),
    ensures
        sqrt_floor(n) == r,
{
    assert(exists|x: int| is_sqrt_floor(n, x));
    lemma_sqrt_floor_unique(n, sqrt_floor(n), r);
}

/// Integer square root, rounded down, by binary search.
pub fn isqrt(n: u64) -> (r: u64)
    ensures
        is_sqrt_floor(n as int, r as int),
        r as int == sqrt_floor(n as int),
{
    let mut lo: u64 = 0;
    let mut hi: u64 = 0x1_0000_0000;
    assert((hi as int) * (hi as int) > n as int) by (nonlinear_arith)
        requires
            hi == 0x1_0000_0000u64,
            n <= 0xFFFF_FFFF_FFFF_FFFFu64,
    ;
    while lo + 1 < hi
        invariant
            lo < hi <= 0x1_0000_0000,
            (lo as int) * (lo as int) <= n as int,
            (hi as int) * (hi as int) > n as int,
        decreases hi - lo,
    {
        let mid: u64 = lo + (hi - lo) / 2;
        assert(lo < mid < hi);
        assert(mid * mid <= 0xFFFF_FFFF_FFFF_FFFFu64) by (nonlinear_arith)
            requires
                mid < 0x1_0000_0000u64,
        ;
        if mid * mid <= n {
            lo = mid;
        } else {
            hi = mid;
        }
    }
    proof {
        lemma_sqrt_floor_is(n as int, lo as int);
    }
    lo
}

/// One normalized component: `c * target / len`, rounded towards zero.
pub open spec fn spec_norm_comp(c: int, len: int, target: int) -> int {
    spec_div_trunc(c * target, len)
}

/// The vector scaled to length `target`: each component becomes
/// `c * target / len` where `len` is the rounded-down length of `v`.  The
/// degenerate zero vector is returned unchanged.
pub open spec fn spec_scaled_normalize(v: Vec2, target: int) -> Vec2 {
    if v.x == 0 && v.y == 0 {
        v
    } else {
        let len = sqrt_floor(v.x * v.x + v.y * v.y);
        Vec2 { x: spec_norm_comp(v.x as int, len, target) as i64, y: spec_norm_comp(
            v.y as int,
            len,
            target,
        ) as i64 }
    }
}

/// The square of a component never exceeds the squared length.
proof fn lemma_comp_le_len(c: int, n: int, len: int)
    requires
        c * c <= n,
        is_sqrt_floor(n, len),
    ensures
        -len <= c <= len,
{
    if c > len {
        assert((len + 1) * (len + 1) <= c * c) by (nonlinear_arith)
            requires
                0 <= len,
                len + 1 <= c,
        ;
    }
    if c < -len {
        assert((len + 1) * (len + 1) <= c * c) by (nonlinear_arith)
            requires
                0 <= len,
                len + 1 <= -c,
        ;
    }
}

/// A component scaled by `c * target / len` with `|c| <= len` stays within
/// `[-target, target]`.
proof fn lemma_norm_comp_bound(c: int, len: int, target: int)
    requires
        0 < len,
        0 <= target,
        -len <= c <= len,
    ensures
        -target <= spec_norm_comp(c, len, target) <= target,
{
    if c >= 0 {
        assert(0 <= c * target <= len * target) by (nonlinear_arith)
            requires
                0 <= c <= len,
                0 <= target,
        ;
        assert((c * target) / len <= (len * target) / len) by (nonlinear_arith)
            requires
                0 < len,
                c * target <= len * target,
        ;
        assert((len * target) / len == target) by (nonlinear_arith)
            requires
                0 < len,
        ;
    } else {
        assert(0 <= (-c) * target <= len * target) by (nonlinear_arith)
            requires
                0 <= -c <= len,
                0 <= target,
        ;
        assert(((-c) * target) / len <= (len * target) / len) by (nonlinear_arith)
            requires
                0 < len,
                (-c) * target <= len * target,
        ;
        assert((len * target) / len == target) by (nonlinear_arith)
            requires
                0 < len,
        ;
        assert(c * target == -((-c) * target)) by (nonlinear_arith);
    }
}

/// Scale `v` to length `target` in integer arithmetic; a zero vector is
/// returned unchanged.  The result's components never exceed `target` in
/// magnitude when `v` is nonzero.
pub fn scaled_normalize(v: Vec2, target: i64) -> (r: Vec2)
    requires
        -0x10_0000 <= v.x <= 0x10_0000,
        -0x10_0000 <= v.y <= 0x10_0000,
        0 <= target <= MAX_DIM,
    ensures
        r == spec_scaled_normalize(v, target as int),
        !(v.x == 0 && v.y == 0) ==> -target <= r.x <= target && -target <= r.y <= target,
        0 <= v.x ==> 0 <= r.x,
        0 <= v.y ==> 0 <= r.y,
{
    if v.x == 0 && v.y == 0 {
        return v;
    }
    proof {
        assert(0 <= v.x * v.x <= 0x100_0000_0000i64 as int && 0 <= v.y * v.y
            <= 0x100_0000_0000i64 as int) by (nonlinear_arith)
            requires
                -0x10_0000 <= v.x <= 0x10_0000,
                -0x10_0000 <= v.y <= 0x10_0000,
        ;
        assert(v.x * v.x >= 1 || v.y * v.y >= 1) by (nonlinear_arith)
            requires
                v.x != 0 || v.y != 0,
        ;
    }
    let sq: i64 = v.x * v.x + v.y * v.y;
    let len64: u64 = isqrt(sq as u64);
    proof {
        assert(1 <= sq as int);
        assert(len64 * len64 <= sq);
        assert(sq <= 0x200_0000_0000i64);
        assert(len64 < 0x80_0000u64) by (nonlinear_arith)
            requires
                (len64 as int) * (len64 as int) <= 0x200_0000_0000i64 as int,
        ;
        lemma_comp_le_len(v.x as int, sq as int, len64 as int);
        lemma_comp_le_len(v.y as int, sq as int, len64 as int);
        lemma_norm_comp_bound(v.x as int, len64 as int, target as int);
        lemma_norm_comp_bound(v.y as int, len64 as int, target as int);
        assert(-0x10_0000_0000_0000i64 <= v.x * target <= 0x10_0000_0000_0000i64
            && -0x10_0000_0000_0000i64 <= v.y * target <= 0x10_0000_0000_0000i64)
            by (nonlinear_arith)
            requires
                -0x10_0000 <= v.x <= 0x10_0000,
                -0x10_0000 <= v.y <= 0x10_0000,
                0 <= target <= 0x100_0000i64,
        ;
        assert((0 <= v.x ==> 0 <= v.x * target) && (0 <= v.y ==> 0 <= v.y * target))
            by (nonlinear_arith)
            requires
                0 <= target,
        ;
    }
    let len: i64 = len64 as i64;
    let rx: i64 = div_trunc(v.x * target, len);
    let ry: i64 = div_trunc(v.y * target, len);
    Vec2 { x: rx, y: ry }
}

} // verus!
