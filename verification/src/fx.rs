//! Signed 64-bit fixed-point arithmetic with a scale of one million.
//!
//! A logical real value `r` is stored as the integer `r * FX_ONE`, rounded
//! toward zero. All engine arithmetic saturates at `FX_LIM` (one million in
//! logical units), so no verified operation can overflow or panic; within
//! the simulation's working ranges the saturation bound is never reached and
//! every operation is exact integer arithmetic.

use vstd::prelude::*;

verus! {

/// The fixed-point scale: the stored integer for the logical value one.
pub const FX_ONE: i64 = 1_000_000;

/// Saturation bound for every stored fixed-point value (one million logical).
pub const FX_LIM: i64 = 1_000_000_000_000;

/// Absolute value of a mathematical integer.
pub open spec fn abs_int(x: int) -> int {
    if x >= 0 {
        x
    } else {
        -x
    }
}

/// Saturate a mathematical integer into the representable band.
pub open spec fn fx_clamp(x: int) -> int {
    if x > FX_LIM {
        FX_LIM as int
    } else if x < -(FX_LIM as int) {
        -(FX_LIM as int)
    } else {
        x
    }
}

/// Quotient rounded toward zero, for a positive divisor.
pub open spec fn div_toward_zero(x: int, d: int) -> int
    recommends
        d > 0,
{
    if x >= 0 {
        x / d
    } else {
        -((-x) / d)
    }
}

/// Fixed-point saturating addition.
pub open spec fn spec_fx_add(a: int, b: int) -> int {
    fx_clamp(a + b)
}

/// Fixed-point saturating subtraction.
pub open spec fn spec_fx_sub(a: int, b: int) -> int {
    fx_clamp(a - b)
}

/// Fixed-point saturating product: `(a * b) / FX_ONE`, rounded toward zero.
pub open spec fn spec_fx_mul(a: int, b: int) -> int {
    fx_clamp(div_toward_zero(a * b, FX_ONE as int))
}

/// Fixed-point saturating quotient: `(a * FX_ONE) / b`, rounded toward zero.
pub open spec fn spec_fx_div(a: int, b: int) -> int
    recommends
        b != 0,
{
    if (a < 0) != (b < 0) {
        fx_clamp(-((abs_int(a) * (FX_ONE as int)) / abs_int(b)))
    } else {
        fx_clamp((abs_int(a) * (FX_ONE as int)) / abs_int(b))
    }
}

/// Magnitude of an `i64` as a `u128`.
pub fn abs_u128(a: i64) -> (r: u128)
    ensures
        r == abs_int(a as int),
{
    if a >= 0 {
        a as u128
    } else {
        (-(a as i128)) as u128
    }
}

/// Saturate a signed 128-bit intermediate into the fixed-point band.
pub fn clamp_i128(x: i128) -> (r: i64)
    ensures
        r == fx_clamp(x as int),
{
    if x > FX_LIM as i128 {
        FX_LIM
    } else if x < -(FX_LIM as i128) {
        -FX_LIM
    } else {
        x as i64
    }
}

/// Saturating fixed-point addition.
pub fn fx_add(a: i64, b: i64) -> (r: i64)
    ensures
        r == spec_fx_add(a as int, b as int),
{
    clamp_i128(a as i128 + b as i128)
}

/// Saturating fixed-point subtraction.
pub fn fx_sub(a: i64, b: i64) -> (r: i64)
    ensures
        r == spec_fx_sub(a as int, b as int),
{
    clamp_i128(a as i128 - b as i128)
}

/// Rebuild a signed value from a sign flag and a magnitude, saturating.
fn apply_sign(neg: bool, mag: u128) -> (r: i64)
    ensures
        r == fx_clamp(if neg {
            -(mag as int)
        } else {
            mag as int
        }),
{
    if mag > FX_LIM as u128 {
        if neg {
            -FX_LIM
        } else {
            FX_LIM
        }
    } else {
        if neg {
            -(mag as i64)
        } else {
            mag as i64
        }
    }
}

/// Saturating fixed-point multiplication.
pub fn fx_mul(a: i64, b: i64) -> (r: i64)
    ensures
        r == spec_fx_mul(a as int, b as int),
{
    let neg: bool = (a < 0) != (b < 0);
    let ma: u128 = abs_u128(a);
    let mb: u128 = abs_u128(b);
    proof {
        assert(ma * mb <= u128::MAX) by (nonlinear_arith)
            requires
                0 <= ma < 0x1_0000_0000_0000_0000u128,
                0 <= mb < 0x1_0000_0000_0000_0000u128,
        ;
    }
    let p: u128 = ma * mb;
    let q: u128 = p / (FX_ONE as u128);
    proof {
        assert(p == abs_int(a as int) * abs_int(b as int));
        assert(a as int * b as int == if neg {
            -(p as int)
        } else {
            p as int
        }) by (nonlinear_arith)
            requires
                p == abs_int(a as int) * abs_int(b as int),
                neg == ((a < 0) != (b < 0)),
        ;
        assert(q == p as int / (FX_ONE as int));
    }
    apply_sign(neg, q)
}

/// Saturating fixed-point division by a nonzero divisor.
pub fn fx_div(a: i64, b: i64) -> (r: i64)
    requires
        b != 0,
    ensures
        r == spec_fx_div(a as int, b as int),
{
    let neg: bool = (a < 0) != (b < 0);
    let ma: u128 = abs_u128(a);
    let mb: u128 = abs_u128(b);
    proof {
        assert(ma * (FX_ONE as u128) <= u128::MAX) by (nonlinear_arith)
            requires
                0 <= ma < 0x1_0000_0000_0000_0000u128,
        ;
    }
    let p: u128 = ma * (FX_ONE as u128);
    let q: u128 = p / mb;
    proof {
        assert(p == abs_int(a as int) * (FX_ONE as int)) by (nonlinear_arith)
            requires
                p == ma * (FX_ONE as u128),
                ma == abs_int(a as int),
                0 <= ma <= u64::MAX,
        ;
        assert(q == (abs_int(a as int) * (FX_ONE as int)) / mb as int);
    }
    apply_sign(neg, q)
}

/// Scale a wide dot-product accumulator back down by `FX_ONE`, saturating.
pub fn rescale_i128(acc: i128) -> (r: i64)
    requires
        -5_000_000_000_000_000_000_000_000_000 <= acc <= 5_000_000_000_000_000_000_000_000_000,
    ensures
        r == fx_clamp(div_toward_zero(acc as int, FX_ONE as int)),
{
    if acc >= 0 {
        let q: u128 = (acc as u128) / (FX_ONE as u128);
        apply_sign(false, q)
    } else {
        let m: u128 = (-acc) as u128;
        let q: u128 = m / (FX_ONE as u128);
        apply_sign(true, q)
    }
}

/// The integer square root of a nonnegative integer, as a mathematical
/// function: the unique `r >= 0` with `r * r <= n < (r + 1) * (r + 1)`.
pub open spec fn sqrt_floor(n: int) -> int {
    choose|r: int| r >= 0 && #[trigger] (r * r) <= n && n < (r + 1) * (r + 1)
}

/// The characterization pins `sqrt_floor` down uniquely.
pub proof fn lemma_sqrt_floor_unique(n: int, r: int)
    requires
        r >= 0,
        r * r <= n,
        n < (r + 1) * (r + 1),
    ensures
        sqrt_floor(n) == r,
{
    let c = sqrt_floor(n);
    assert(c >= 0 && c * c <= n && n < (c + 1) * (c + 1)) by {
        assert(r >= 0 && r * r <= n && n < (r + 1) * (r + 1));
    }
    assert(c == r) by (nonlinear_arith)
        requires
            c >= 0,
            r >= 0,
            c * c <= n,
            n < (c + 1) * (c + 1),
            r * r <= n,
            n < (r + 1) * (r + 1),
    ;
}

/// A two-dimensional fixed-point vector.
#[derive(Clone, Copy, Debug, PartialEq, Eq, Structural)]
pub struct Vec2 {
    pub x: i64,
    pub y: i64,
}

/// Both components inside the saturation band.
pub open spec fn vec2_band(v: Vec2) -> bool {
    -FX_LIM <= v.x <= FX_LIM && -FX_LIM <= v.y <= FX_LIM
}

/// Squared distance between two banded points, as a mathematical integer.
pub open spec fn spec_dist_sq(a: Vec2, b: Vec2) -> int {
    (a.x - b.x) * (a.x - b.x) + (a.y - b.y) * (a.y - b.y)
}

impl Vec2 {
    /// The origin.
    pub fn zero() -> (r: Vec2)
        ensures
            r == (Vec2 { x: 0, y: 0 }),
    {
        Vec2 { x: 0, y: 0 }
    }

    /// Component-wise saturating sum.
    pub fn plus(self, o: Vec2) -> (r: Vec2)
        ensures
            r.x == spec_fx_add(self.x as int, o.x as int),
            r.y == spec_fx_add(self.y as int, o.y as int),
            vec2_band(r),
    {
        Vec2 { x: fx_add(self.x, o.x), y: fx_add(self.y, o.y) }
    }

    /// Component-wise saturating difference.
    pub fn minus(self, o: Vec2) -> (r: Vec2)
        ensures
            r.x == spec_fx_sub(self.x as int, o.x as int),
            r.y == spec_fx_sub(self.y as int, o.y as int),
            vec2_band(r),
    {
        Vec2 { x: fx_sub(self.x, o.x), y: fx_sub(self.y, o.y) }
    }

    /// Scaling by a fixed-point factor, saturating.
    pub fn scale(self, k: i64) -> (r: Vec2)
        ensures
            r.x == spec_fx_mul(self.x as int, k as int),
            r.y == spec_fx_mul(self.y as int, k as int),
            vec2_band(r),
    {
        Vec2 { x: fx_mul(self.x, k), y: fx_mul(self.y, k) }
    }

    /// Squared distance to another point, exact in a wide integer.
    pub fn dist_sq(self, o: Vec2) -> (r: u128)
        requires
            vec2_band(self),
            vec2_band(o),
        ensures
            r == spec_dist_sq(self, o),
    {
        let dx: i128 = self.x as i128 - o.x as i128;
        let dy: i128 = self.y as i128 - o.y as i128;
        proof {
            assert(0 <= dx * dx <= 16_000_000_000_000_000_000_000_000i128) by (nonlinear_arith)
                requires
                    -2 * FX_LIM <= dx <= 2 * FX_LIM,
            ;
            assert(0 <= dy * dy <= 16_000_000_000_000_000_000_000_000i128) by (nonlinear_arith)
                requires
                    -2 * FX_LIM <= dy <= 2 * FX_LIM,
            ;
        }
        (dx * dx) as u128 + (dy * dy) as u128
    }

    /// Euclidean norm, rounded down; exact to the integer square root.
    pub fn norm(self) -> (r: i64)
        requires
            vec2_band(self),
        ensures
            0 <= r <= 2 * FX_LIM,
            r == sqrt_floor(spec_dist_sq(self, Vec2 { x: 0, y: 0 })),
    {
        let d = self.dist_sq(Vec2 { x: 0, y: 0 });
        let r = isqrt_u128(d);
        proof {
            lemma_sqrt_floor_unique(d as int, r as int);
        }
        proof {
            assert(spec_dist_sq(self, Vec2 { x: 0, y: 0 }) <= (2 * FX_LIM) * (2 * FX_LIM))
                by (nonlinear_arith)
                requires
                    -FX_LIM <= self.x <= FX_LIM,
                    -FX_LIM <= self.y <= FX_LIM,
            ;
            assert(r <= 2 * FX_LIM) by (nonlinear_arith)
                requires
                    (r as int) * (r as int) <= (2 * FX_LIM) * (2 * FX_LIM),
                    r >= 0,
            ;
        }
        r as i64
    }
}

/// Integer square root: the greatest `r` with `r * r <= n`.
pub fn isqrt_u128(n: u128) -> (r: u64)
    ensures
        (r as int) * (r as int) <= n as int,
        (r as int + 1) * (r as int + 1) > n as int,
{
    let mut lo: u64 = 0;
    let mut hi: u64 = u64::MAX;
    proof {
        assert((u64::MAX as int + 1) * (u64::MAX as int + 1) > u128::MAX as int)
            by (nonlinear_arith);
    }
    while lo < hi
        invariant
            lo <= hi,
            (lo as int) * (lo as int) <= n as int,
            (hi as int + 1) * (hi as int + 1) > n as int,
        decreases hi - lo,
    {
        let mid: u64 = (lo as u128 + (hi as u128 - lo as u128 + 1) / 2) as u64;
        proof {
            assert(mid as int * mid as int <= u64::MAX as int * u64::MAX as int)
                by (nonlinear_arith)
                requires
                    0 <= mid as int <= u64::MAX as int,
            ;
            assert(u64::MAX as int * u64::MAX as int <= u128::MAX as int) by (nonlinear_arith);
        }
        let sq: u128 = (mid as u128) * (mid as u128);
        if sq <= n {
            lo = mid;
        } else {
            hi = mid - 1;
        }
    }
    lo
}

} // verus!
