//! Fixed-point scalars: an `i64` holding a value scaled by `ONE`.
use vstd::prelude::*;

verus! {

/// A scalar in fixed point: the raw value is the real value times `ONE`.
pub type Coord = i64;

/// A pixel coordinate.
pub type PixCoord = i16;

/// A texture dimension.
pub type Dimension = u32;

/// The raw value of 1.0 (16 fractional bits).
pub const ONE: i64 = 65536;

/// The largest magnitude of a coordinate or a transform entry, raw (2^47).
pub const COORD_MAX: i64 = 0x8000_0000_0000;

/// Whether a value lies in the range of coordinates.
pub open spec fn in_range(v: int) -> bool {
    -COORD_MAX <= v <= COORD_MAX
}

/// Saturation of a value to the range of coordinates.
pub open spec fn sat(v: int) -> int {
    if v > COORD_MAX {
        COORD_MAX as int
    } else if v < -COORD_MAX {
        -COORD_MAX
    } else {
        v
    }
}

/// Division rounding toward zero, as integer casts of reals do.
pub open spec fn trunc_div(a: int, d: int) -> int {
    if a >= 0 {
        a / d
    } else {
        -((-a) / d)
    }
}

/// The pixel coordinate of a raw value: its integer part, saturated to `i16`.
pub open spec fn to_pix(c: int) -> int {
    let t = trunc_div(c, ONE as int);
    if t > i16::MAX {
        i16::MAX as int
    } else if t < i16::MIN {
        i16::MIN as int
    } else {
        t
    }
}

/// The product of two coordinates stays within 2^94 in magnitude.
pub proof fn lemma_mul_in_range(a: int, b: int)
    requires
        in_range(a),
        in_range(b),
    ensures
        -0x4000_0000_0000_0000_0000_0000 <= a * b <= 0x4000_0000_0000_0000_0000_0000,
{
    assert(-0x4000_0000_0000_0000_0000_0000 <= a * b <= 0x4000_0000_0000_0000_0000_0000)
        by (nonlinear_arith)
        requires
            -0x8000_0000_0000 <= a <= 0x8000_0000_0000,
            -0x8000_0000_0000 <= b <= 0x8000_0000_0000,
    {
        if a >= 0 && b >= 0 {
            assert(a * b <= 0x8000_0000_0000 * b);
        } else if a >= 0 {
            assert(a * b >= 0x8000_0000_0000 * b);
        } else if b >= 0 {
            assert(a * b >= a * 0x8000_0000_0000);
        } else {
            assert(a * b <= a * (-0x8000_0000_0000));
        }
    }
}

/// The product of two `i64` values, widened.
pub fn mul_wide(a: i64, b: i64) -> (r: i128)
    ensures
        r == a * b,
        -0x4000_0000_0000_0000_0000_0000_0000_0000 <= r <= 0x4000_0000_0000_0000_0000_0000_0000_0000,
{
    assert(-0x4000_0000_0000_0000_0000_0000_0000_0000 <= a * b <= 0x4000_0000_0000_0000_0000_0000_0000_0000)
        by (nonlinear_arith)
        requires
            -0x8000_0000_0000_0000 <= a <= 0x7fff_ffff_ffff_ffff,
            -0x8000_0000_0000_0000 <= b <= 0x7fff_ffff_ffff_ffff,
    {
        if a >= 0 && b >= 0 {
            assert(a * b <= 0x8000_0000_0000_0000 * b);
        } else if a >= 0 {
            assert(a * b >= 0x8000_0000_0000_0000 * b);
        } else if b >= 0 {
            assert(a * b >= a * 0x8000_0000_0000_0000);
        } else {
            assert(a * b <= a * (-0x8000_0000_0000_0000));
        }
    }
    (a as i128) * (b as i128)
}

/// Saturates a wide value to the range of coordinates.
pub fn saturate(v: i128) -> (r: Coord)
    ensures
        r == sat(v as int),
        in_range(r as int),
{
    if v > COORD_MAX as i128 {
        COORD_MAX
    } else if v < -(COORD_MAX as i128) {
        -COORD_MAX
    } else {
        v as i64
    }
}

/// Floor division by a positive divisor.
pub fn floor_div(a: i128, d: i128) -> (r: i128)
    requires
        d > 0,
        -0x4000_0000_0000_0000_0000_0000_0000_0000 <= a <= 0x4000_0000_0000_0000_0000_0000_0000_0000,
    ensures
        r == a / d,
{
    assert(-0x4000_0000_0000_0000_0000_0000_0000_0000 <= a / d <= 0x4000_0000_0000_0000_0000_0000_0000_0000)
        by (nonlinear_arith)
        requires
            d > 0,
            -0x4000_0000_0000_0000_0000_0000_0000_0000 <= a <= 0x4000_0000_0000_0000_0000_0000_0000_0000,
    {
        if a >= 0 {
            assert(a / d <= a);
        } else {
            assert(a / d >= a);
        }
    }
    match a.checked_div_euclid(d) {
        Some(q) => q,
        None => 0,
    }
}

/// Division by a positive divisor, rounding toward zero.
pub fn trunc_div_wide(a: i128, d: i128) -> (r: i128)
    requires
        d > 0,
        -0x4000_0000_0000_0000_0000_0000_0000_0000 <= a <= 0x4000_0000_0000_0000_0000_0000_0000_0000,
    ensures
        r == trunc_div(a as int, d as int),
{
    if a >= 0 {
        floor_div(a, d)
    } else {
        -floor_div(-a, d)
    }
}

/// The pixel coordinate of a wide raw value.
pub fn pix_of(c: i128) -> (r: PixCoord)
    requires
        -0x1_0000_0000_0000_0000_0000_0000_0000 <= c <= 0x1_0000_0000_0000_0000_0000_0000_0000,
    ensures
        r == to_pix(c as int),
{
    let t: i128 = if c >= 0 {
        floor_div(c, ONE as i128)
    } else {
        -floor_div(-c, ONE as i128)
    };
    if t > i16::MAX as i128 {
        i16::MAX
    } else if t < i16::MIN as i128 {
        i16::MIN
    } else {
        t as i16
    }
}

/// Whether `r` is the integer square root of `n`.
pub open spec fn is_isqrt(n: int, r: int) -> bool {
    0 <= r && r * r <= n < (r + 1) * (r + 1)
}

/// The integer square root of a nonnegative `n`.
pub open spec fn root(n: int) -> int {
    choose|r: int| is_isqrt(n, r)
}

/// Every nonnegative `n` has an integer square root: `root(n)`.
pub proof fn lemma_root_exists(n: int)
    requires
        n >= 0,
    ensures
        is_isqrt(n, root(n)),
    decreases n,
{
    if n == 0 {
        assert(is_isqrt(0, 0));
    } else {
        lemma_root_exists(n - 1);
        let r = root(n - 1);
        if (r + 1) * (r + 1) <= n {
            assert(n < (r + 2) * (r + 2)) by (nonlinear_arith)
                requires
                    r >= 0,
                    n - 1 < (r + 1) * (r + 1),
            ;
            assert(is_isqrt(n, r + 1));
        } else {
            assert(is_isqrt(n, r));
        }
    }
}

/// At most one value is the integer square root of `n`.
pub proof fn lemma_isqrt_unique(n: int, a: int, b: int)
    requires
        is_isqrt(n, a),
        is_isqrt(n, b),
    ensures
        a == b,
{
    assert(a == b) by (nonlinear_arith)
        requires
            0 <= a,
            0 <= b,
            a * a <= n < (a + 1) * (a + 1),
            b * b <= n < (b + 1) * (b + 1),
    {
        if a < b {
            assert((a + 1) * (a + 1) <= b * b);
        } else if b < a {
            assert((b + 1) * (b + 1) <= a * a);
        }
    }
}

/// A witness of `is_isqrt` is `root`.
pub proof fn lemma_root(n: int, r: int)
    requires
        is_isqrt(n, r),
    ensures
        root(n) == r,
{
    assert(is_isqrt(n, root(n)));
    lemma_isqrt_unique(n, r, root(n));
}

/// The integer square root, by bisection.
pub fn isqrt(n: u128) -> (r: u128)
    ensures
        is_isqrt(n as int, r as int),
        r == root(n as int),
{
    let mut lo: u128 = 0;
    let mut hi: u128 = 0x1_0000_0000_0000_0000;
    assert(hi * hi == 0x1_0000_0000_0000_0000_0000_0000_0000_0000);
    while hi - lo > 1
        invariant
            lo < hi <= 0x1_0000_0000_0000_0000,
            lo * lo <= n,
            n < hi * hi,
        decreases hi - lo,
    {
        let mid = lo + (hi - lo) / 2;
        assert(mid * mid < 0x1_0000_0000_0000_0000_0000_0000_0000_0000) by (nonlinear_arith)
            requires
                mid < 0x1_0000_0000_0000_0000,
        {
            assert(mid * mid <= mid * 0xffff_ffff_ffff_ffff);
        }
        if mid * mid <= n {
            lo = mid;
        } else {
            hi = mid;
        }
    }
    assert(hi == lo + 1);
    proof {
        lemma_root(n as int, lo as int);
    }
    lo
}

} // verus!
