use vstd::prelude::*;
use vstd::math::abs;
use crate::fx::{Fx, fxv, fx_clip, apply_sign, fx_half_v, fx_half, fx_sub, fx_add};

verus! {

/// Pi in ticks, rounded down.
pub const FX_PI_BITS: i64 = 205887;

/// Two pi in ticks, rounded down.
pub const FX_TWO_PI_BITS: i64 = 411774;

/// Largest magnitude, in ticks, accepted by the arc-tangent kernel.
pub const ATAN_ARG_LIMIT: i64 = 65536;

/// The sine, in ticks, that the fixed-point kernel computes for an angle
/// (ticks of radians) already reduced to `[-pi, pi]`.
pub uninterp spec fn sin_of(a: int) -> int;

/// The cosine, in ticks, that the fixed-point kernel computes for an angle
/// (ticks of radians) already reduced to `[-pi, pi]`.
pub uninterp spec fn cos_of(a: int) -> int;

/// The quadrant-corrected arc-tangent, in ticks of radians, that the
/// fixed-point kernel computes for a pair of small coordinates.
pub uninterp spec fn atan2_of(y: int, x: int) -> int;

/// Relies on cordic::sin over 64-bit fixed point with 16 fractional bits:
/// a pure function of the angle bits alone.
#[verifier::external_body]
fn sin_bits(a: i64) -> (r: i64)
    requires
        -FX_PI_BITS <= a <= FX_PI_BITS,
    ensures
        r as int == sin_of(a as int),
{
    cordic::sin(fixed::FixedI64::<fixed::types::extra::U16>::from_bits(a)).to_bits()
}

/// Relies on cordic::cos over 64-bit fixed point with 16 fractional bits:
/// a pure function of the angle bits alone.
#[verifier::external_body]
fn cos_bits(a: i64) -> (r: i64)
    requires
        -FX_PI_BITS <= a <= FX_PI_BITS,
    ensures
        r as int == cos_of(a as int),
{
    cordic::cos(fixed::FixedI64::<fixed::types::extra::U16>::from_bits(a)).to_bits()
}

/// Relies on cordic::atan2 over 64-bit fixed point with 16 fractional bits:
/// a pure function of the two coordinate bit patterns alone.
#[verifier::external_body]
fn atan2_bits(y: i64, x: i64) -> (r: i64)
    requires
        -ATAN_ARG_LIMIT <= y <= ATAN_ARG_LIMIT,
        -ATAN_ARG_LIMIT <= x <= ATAN_ARG_LIMIT,
    ensures
        r as int == atan2_of(y as int, x as int),
{
    cordic::atan2(
        fixed::FixedI64::<fixed::types::extra::U16>::from_bits(y),
        fixed::FixedI64::<fixed::types::extra::U16>::from_bits(x),
    ).to_bits()
}

/// Shift an angle by whole turns until it lies in `[-pi, pi]`.
pub open spec fn reduce_angle(a: int) -> int
    decreases abs(a),
{
    if a > FX_PI_BITS as int {
        reduce_angle(a - FX_TWO_PI_BITS as int)
    } else if a < -(FX_PI_BITS as int) {
        reduce_angle(a + FX_TWO_PI_BITS as int)
    } else {
        a
    }
}

/// The angle actually handed to the trigonometric kernel for `a`, and the
/// sine and cosine values of a scalar angle.
pub open spec fn sin_v(a: int) -> int {
    fx_clip(sin_of(reduce_angle(a)))
}

pub open spec fn cos_v(a: int) -> int {
    fx_clip(cos_of(reduce_angle(a)))
}

/// Halve both coordinates until each magnitude fits the arc-tangent kernel.
pub open spec fn shrink_pair(y: int, x: int) -> (int, int)
    decreases abs(y) + abs(x),
{
    if abs(y) <= ATAN_ARG_LIMIT as nat && abs(x) <= ATAN_ARG_LIMIT as nat {
        (y, x)
    } else {
        shrink_pair(fx_half_v(y), fx_half_v(x))
    }
}

/// The arc-tangent of `y/x` as the library computes it: both coordinates
/// are scaled down together (preserving their ratio up to rounding) and the
/// kernel is applied to the scaled pair.
pub open spec fn atan2_v(y: int, x: int) -> int {
    fx_clip(atan2_of(shrink_pair(y, x).0, shrink_pair(y, x).1))
}

/// Reduce an angle into `[-pi, pi]` by whole turns.
pub fn reduce_angle_fx(a: Fx) -> (r: Fx)
    ensures
        fxv(r) == reduce_angle(fxv(a)),
        -(FX_PI_BITS as int) <= fxv(r) <= FX_PI_BITS as int,
{
    let two_pi = Fx::from_bits(FX_TWO_PI_BITS);
    let pi = Fx::from_bits(FX_PI_BITS);
    let neg_pi = Fx::from_bits(-FX_PI_BITS);
    let mut cur = a;
    while crate::fx::fx_lt(pi, cur)
        invariant
            reduce_angle(fxv(cur)) == reduce_angle(fxv(a)),
            fxv(pi) == FX_PI_BITS as int,
            fxv(neg_pi) == -(FX_PI_BITS as int),
            fxv(two_pi) == FX_TWO_PI_BITS as int,
        decreases fxv(cur) + FX_PI_BITS as int,
    {
        proof {
            crate::fx::lemma_fxv_range(cur);
        }
        cur = fx_sub(cur, two_pi);
    }
    while crate::fx::fx_lt(cur, neg_pi)
        invariant
            reduce_angle(fxv(cur)) == reduce_angle(fxv(a)),
            fxv(cur) <= FX_PI_BITS as int,
            fxv(pi) == FX_PI_BITS as int,
            fxv(neg_pi) == -(FX_PI_BITS as int),
            fxv(two_pi) == FX_TWO_PI_BITS as int,
        decreases FX_PI_BITS as int - fxv(cur),
    {
        proof {
            crate::fx::lemma_fxv_range(cur);
        }
        cur = fx_add(cur, two_pi);
    }
    cur
}

/// Sine of an angle in ticks of radians.
pub fn fx_sin(a: Fx) -> (r: Fx)
    ensures
        fxv(r) == sin_v(fxv(a)),
{
    let red = reduce_angle_fx(a);
    Fx::from_bits(sin_bits(red.to_bits()))
}

/// Cosine of an angle in ticks of radians.
pub fn fx_cos(a: Fx) -> (r: Fx)
    ensures
        fxv(r) == cos_v(fxv(a)),
{
    let red = reduce_angle_fx(a);
    Fx::from_bits(cos_bits(red.to_bits()))
}

/// Quadrant-corrected arc-tangent of `y/x`, in ticks of radians.
pub fn fx_atan2(y: Fx, x: Fx) -> (r: Fx)
    ensures
        fxv(r) == atan2_v(fxv(y), fxv(x)),
{
    let limit = Fx::from_bits(ATAN_ARG_LIMIT);
    let neg_limit = Fx::from_bits(-ATAN_ARG_LIMIT);
    let mut cy = y;
    let mut cx = x;
    while !(crate::fx::fx_le(neg_limit, cy) && crate::fx::fx_le(cy, limit)
        && crate::fx::fx_le(neg_limit, cx) && crate::fx::fx_le(cx, limit))
        invariant
            shrink_pair(fxv(cy), fxv(cx)) == shrink_pair(fxv(y), fxv(x)),
            fxv(limit) == ATAN_ARG_LIMIT as int,
            fxv(neg_limit) == -(ATAN_ARG_LIMIT as int),
        decreases abs(fxv(cy)) + abs(fxv(cx)),
    {
        cy = fx_half(cy);
        cx = fx_half(cx);
    }
    Fx::from_bits(atan2_bits(cy.to_bits(), cx.to_bits()))
}

} // verus!
