use vstd::prelude::*;
use vstd::math::abs;

verus! {

/// Scale of the fixed-point representation: one coordinate unit is
/// `FX_SCALE` ticks, i.e. values carry 16 fractional bits.
pub const FX_SCALE: i64 = 65536;

/// Largest representable magnitude, in ticks. The representable range is
/// kept symmetric (`i64::MIN` is never produced), so that negation is total.
pub const FX_MAX_BITS: i64 = i64::MAX;

/// A saturating fixed-point scalar: 16 fractional bits stored in an `i64`.
/// Every arithmetic operation clamps its result to `[-FX_MAX_BITS, FX_MAX_BITS]`,
/// so all operations are total; there is no overflow and no NaN.
#[derive(Clone, Copy, PartialEq, Eq, Structural, Debug)]
pub struct Fx {
    bits: i64,
}

/// The scalar type used for path coordinates.
pub type PathCoord = Fx;

/// The mathematical value of a scalar, in ticks.
pub closed spec fn fxv(a: Fx) -> int {
    a.bits as int
}

/// Clamp an unbounded integer into the symmetric representable range.
pub open spec fn fx_clip(v: int) -> int {
    if v > FX_MAX_BITS as int {
        FX_MAX_BITS as int
    } else if v < -(FX_MAX_BITS as int) {
        -(FX_MAX_BITS as int)
    } else {
        v
    }
}

/// Attach a sign to a magnitude.
pub open spec fn apply_sign(neg: bool, m: int) -> int {
    if neg { -m } else { m }
}

pub open spec fn fx_add_v(a: int, b: int) -> int {
    fx_clip(a + b)
}

pub open spec fn fx_sub_v(a: int, b: int) -> int {
    fx_clip(a - b)
}

pub open spec fn fx_neg_v(a: int) -> int {
    fx_clip(-a)
}

/// Fixed-point product: magnitudes are multiplied exactly and the extra
/// scale factor is divided out, rounding the quotient toward zero.
pub open spec fn fx_mul_v(a: int, b: int) -> int {
    fx_clip(apply_sign((a < 0) != (b < 0), ((abs(a) * abs(b)) / (FX_SCALE as nat)) as int))
}

/// Fixed-point quotient, rounding toward zero. Division by zero saturates
/// to the representable extreme of the dividend's sign (zero for zero).
pub open spec fn fx_div_v(a: int, b: int) -> int {
    if b == 0 {
        if a == 0 {
            0
        } else if a < 0 {
            -(FX_MAX_BITS as int)
        } else {
            FX_MAX_BITS as int
        }
    } else {
        fx_clip(apply_sign((a < 0) != (b < 0), ((abs(a) * (FX_SCALE as nat)) / abs(b)) as int))
    }
}

/// Division of a scalar by a positive count (no rescaling), rounding toward zero.
pub open spec fn fx_div_n_v(a: int, n: int) -> int {
    fx_clip(apply_sign(a < 0, (abs(a) / abs(n)) as int))
}

/// Halving toward zero; never clips.
pub open spec fn fx_half_v(a: int) -> int {
    apply_sign(a < 0, (abs(a) / 2) as int)
}

pub open spec fn fx_min_v(a: int, b: int) -> int {
    if a < b { a } else { b }
}

pub open spec fn fx_max_v(a: int, b: int) -> int {
    if a > b { a } else { b }
}

pub open spec fn is_sqrt_floor(n: int, r: int) -> bool {
    0 <= r && r * r <= n && n < (r + 1) * (r + 1)
}

/// The integer square root (rounded down) of a non-negative integer.
pub open spec fn sqrt_floor(n: int) -> int {
    choose|r: int| is_sqrt_floor(n, r)
}

/// Value of the square root of a scalar, in ticks: computing on raw ticks
/// requires rescaling by one factor of `FX_SCALE` under the root.
pub open spec fn fx_sqrt_v(v: int) -> int {
    if v < 0 {
        0
    } else {
        sqrt_floor(v * (FX_SCALE as int))
    }
}

/// Every scalar's value fits the bit width of its representation.
pub proof fn lemma_fxv_range(a: Fx)
    ensures
        -(FX_MAX_BITS as int) - 1 <= fxv(a) <= FX_MAX_BITS as int,
{
}

/// Two scalars are equal exactly when their values are equal.
pub proof fn lemma_fxv_bijective()
    ensures
        forall|a: Fx, b: Fx| #![trigger fxv(a), fxv(b)] (fxv(a) == fxv(b)) == (a == b),
{
    assert forall|a: Fx, b: Fx| #![trigger fxv(a), fxv(b)] (fxv(a) == fxv(b)) == (a == b) by {
        if fxv(a) == fxv(b) {
            assert(a.bits == b.bits);
        }
    }
}

pub proof fn lemma_sqrt_floor_exists(n: int)
    requires
        n >= 0,
    ensures
        is_sqrt_floor(n, sqrt_floor(n)),
    decreases n,
{
    if n == 0 {
        assert(is_sqrt_floor(0, 0));
    } else {
        lemma_sqrt_floor_exists(n - 1);
        let r = sqrt_floor(n - 1);
        if (r + 1) * (r + 1) <= n {
            assert(is_sqrt_floor(n, r + 1)) by (nonlinear_arith)
                requires
                    is_sqrt_floor(n - 1, r),
                    (r + 1) * (r + 1) <= n,
            ;
        } else {
            assert(is_sqrt_floor(n, r));
        }
    }
    assert(exists|r: int| is_sqrt_floor(n, r));
}

pub proof fn lemma_sqrt_floor_unique(n: int, r: int)
    requires
        is_sqrt_floor(n, r),
    ensures
        sqrt_floor(n) == r,
{
    lemma_sqrt_floor_exists(n);
    let s = sqrt_floor(n);
    assert(s == r) by (nonlinear_arith)
        requires
            is_sqrt_floor(n, r),
            is_sqrt_floor(n, s),
    ;
}

/// A product with a factor of at most one is an approximate rescaling: it
/// lands within one tick of the exact proportion and never grows a magnitude.
pub proof fn lemma_fx_mul_factor_bounds(f: int, v: int)
    requires
        0 <= f <= FX_SCALE as int,
        -(FX_MAX_BITS as int) <= v <= FX_MAX_BITS as int,
    ensures
        f * v - (FX_SCALE as int) < (FX_SCALE as int) * fx_mul_v(f, v),
        (FX_SCALE as int) * fx_mul_v(f, v) < f * v + (FX_SCALE as int),
        -(abs(v) as int) <= fx_mul_v(f, v) <= abs(v) as int,
{
    let av = abs(v) as int;
    let n = f * av;
    let q = n / (FX_SCALE as int);
    assert(n >= 0 && n <= 65536 * av) by (nonlinear_arith)
        requires
            0 <= f <= 65536,
            av >= 0,
            n == f * av,
    ;
    assert(65536 * q <= n && n < 65536 * (q + 1) && 0 <= q && q <= av) by (nonlinear_arith)
        requires
            n >= 0,
            n <= 65536 * av,
            q == n / 65536,
    ;
    assert((abs(f) * abs(v)) as int == n);
    if v >= 0 {
        assert(fx_mul_v(f, v) == q);
        assert(65536 * q <= f * v && f * v < 65536 * q + 65536) by (nonlinear_arith)
            requires
                n == f * av,
                av == v,
                65536 * q <= n,
                n < 65536 * (q + 1),
        ;
    } else {
        assert(fx_mul_v(f, v) == -q);
        assert(65536 * (-q) >= f * v && f * v > 65536 * (-q) - 65536) by (nonlinear_arith)
            requires
                n == f * av,
                av == -v,
                65536 * q <= n,
                n < 65536 * (q + 1),
        ;
    }
}

/// A product with a non-negative factor lands within one scale unit of the
/// exact proportion, provided the magnitude does not saturate.
pub proof fn lemma_fx_mul_approx(v: int, f: int)
    requires
        0 <= f,
        f * abs(v) <= (FX_SCALE as int) * (FX_MAX_BITS as int),
    ensures
        f * v - (FX_SCALE as int) < (FX_SCALE as int) * fx_mul_v(v, f),
        (FX_SCALE as int) * fx_mul_v(v, f) < f * v + (FX_SCALE as int),
{
    let av = abs(v) as int;
    let n = f * av;
    let q = n / (FX_SCALE as int);
    assert(65536 * q <= n && n < 65536 * (q + 1) && 0 <= q && 65536 * q <= 65536 * (
    FX_MAX_BITS as int)) by (nonlinear_arith)
        requires
            n >= 0,
            q == n / 65536,
            n <= 65536 * (FX_MAX_BITS as int),
    ;
    assert(q <= FX_MAX_BITS as int) by (nonlinear_arith)
        requires
            65536 * q <= 65536 * (FX_MAX_BITS as int),
    ;
    assert((abs(v) * abs(f)) as int == n) by (nonlinear_arith)
        requires
            abs(v) as int == av,
            abs(f) as int == f,
            n == f * av,
    ;
    if v >= 0 {
        assert(fx_mul_v(v, f) == q);
        assert(65536 * q <= f * v && f * v < 65536 * q + 65536) by (nonlinear_arith)
            requires
                n == f * av,
                av == v,
                65536 * q <= n,
                n < 65536 * (q + 1),
        ;
    } else {
        assert(fx_mul_v(v, f) == -q);
        assert(65536 * (-q) >= f * v && f * v > 65536 * (-q) - 65536) by (nonlinear_arith)
            requires
                n == f * av,
                av == -v,
                65536 * q <= n,
                n < 65536 * (q + 1),
        ;
    }
}

/// Multiplying by a non-negative factor is monotone.
pub proof fn lemma_fx_mul_monotone(f: int, v1: int, v2: int)
    requires
        0 <= f,
        v1 <= v2,
    ensures
        fx_mul_v(v1, f) <= fx_mul_v(v2, f),
{
    let q1 = ((abs(v1) * abs(f)) / (FX_SCALE as nat)) as int;
    let q2 = ((abs(v2) * abs(f)) / (FX_SCALE as nat)) as int;
    assert(abs(f) == f);
    if v1 >= 0 {
        assert(q1 <= q2) by (nonlinear_arith)
            requires
                q1 == ((v1 * f) as nat) / (65536 as nat),
                q2 == ((v2 * f) as nat) / (65536 as nat),
                0 <= v1 <= v2,
                0 <= f,
        ;
        assert(fx_clip(q1) <= fx_clip(q2));
    } else if v2 < 0 {
        assert(q2 <= q1) by (nonlinear_arith)
            requires
                q1 == (((-v1) * f) as nat) / (65536 as nat),
                q2 == (((-v2) * f) as nat) / (65536 as nat),
                v1 <= v2 < 0,
                0 <= f,
        ;
        assert(fx_clip(-q1) <= fx_clip(-q2));
    } else {
        assert(q1 >= 0 && q2 >= 0);
        assert(fx_clip(-q1) <= 0 <= fx_clip(q2));
    }
}

/// Clamp a wide intermediate sum back into the representable range.
fn clip_i128(v: i128) -> (r: i64)
    ensures
        r as int == fx_clip(v as int),
{
    if v > FX_MAX_BITS as i128 {
        FX_MAX_BITS
    } else if v < -(FX_MAX_BITS as i128) {
        -FX_MAX_BITS
    } else {
        v as i64
    }
}

/// Clamp an unsigned magnitude and attach a sign.
fn clip_mag(q: u128, neg: bool) -> (r: i64)
    ensures
        r as int == fx_clip(apply_sign(neg, q as int)),
{
    if q > FX_MAX_BITS as u128 {
        if neg {
            -FX_MAX_BITS
        } else {
            FX_MAX_BITS
        }
    } else {
        if neg {
            -(q as i64)
        } else {
            q as i64
        }
    }
}

/// Magnitude of a signed value, widened so that `i64::MIN` is handled.
fn mag_u128(a: i64) -> (r: u128)
    ensures
        r as int == abs(a as int),
{
    if a >= 0 {
        a as u128
    } else {
        (-(a as i128)) as u128
    }
}

impl Fx {
    /// Construct a scalar from raw ticks; `i64::MIN` saturates to the
    /// symmetric minimum.
    pub fn from_bits(bits: i64) -> (r: Fx)
        ensures
            fxv(r) == fx_clip(bits as int),
    {
        if bits == i64::MIN {
            Fx { bits: -FX_MAX_BITS }
        } else {
            Fx { bits }
        }
    }

    /// Construct a scalar from a whole number of coordinate units.
    pub fn from_int(units: i64) -> (r: Fx)
        ensures
            fxv(r) == fx_clip(units * (FX_SCALE as int)),
    {
        let m = mag_u128(units);
        let q = m * (FX_SCALE as u128);
        proof {
            assert(abs(units as int) * (FX_SCALE as int) == q as int) by (nonlinear_arith)
                requires
                    m as int == abs(units as int),
                    q == m * (FX_SCALE as u128),
                    m <= 0x8000_0000_0000_0000u128,
            ;
            assert(fx_clip(units * (FX_SCALE as int)) == fx_clip(
                apply_sign(units < 0, (abs(units as int) * (FX_SCALE as int))),
            )) by (nonlinear_arith);
        }
        Fx { bits: clip_mag(q, units < 0) }
    }

    pub fn zero() -> (r: Fx)
        ensures
            fxv(r) == 0,
    {
        Fx { bits: 0 }
    }

    /// The raw tick count of this scalar.
    pub fn to_bits(self) -> (r: i64)
        ensures
            r as int == fxv(self),
    {
        self.bits
    }
}

pub fn fx_add(a: Fx, b: Fx) -> (r: Fx)
    ensures
        fxv(r) == fx_add_v(fxv(a), fxv(b)),
{
    let s: i128 = a.bits as i128 + b.bits as i128;
    Fx { bits: clip_i128(s) }
}

pub fn fx_sub(a: Fx, b: Fx) -> (r: Fx)
    ensures
        fxv(r) == fx_sub_v(fxv(a), fxv(b)),
{
    let s: i128 = a.bits as i128 - b.bits as i128;
    Fx { bits: clip_i128(s) }
}

pub fn fx_neg(a: Fx) -> (r: Fx)
    ensures
        fxv(r) == fx_neg_v(fxv(a)),
{
    let s: i128 = -(a.bits as i128);
    Fx { bits: clip_i128(s) }
}

pub fn fx_mul(a: Fx, b: Fx) -> (r: Fx)
    ensures
        fxv(r) == fx_mul_v(fxv(a), fxv(b)),
{
    let ma = mag_u128(a.bits);
    let mb = mag_u128(b.bits);
    proof {
        assert(ma * mb <= 0x8000_0000_0000_0000u128 * 0x8000_0000_0000_0000u128)
            by (nonlinear_arith)
            requires
                ma <= 0x8000_0000_0000_0000u128,
                mb <= 0x8000_0000_0000_0000u128,
        ;
    }
    let p = ma * mb;
    let q = p / (FX_SCALE as u128);
    let neg = (a.bits < 0) != (b.bits < 0);
    proof {
        assert(q as int == ((abs(fxv(a)) * abs(fxv(b))) / (FX_SCALE as nat)) as int)
            by (nonlinear_arith)
            requires
                ma as int == abs(fxv(a)),
                mb as int == abs(fxv(b)),
                p == ma * mb,
                q == p / (FX_SCALE as u128),
                FX_SCALE == 65536,
        ;
    }
    Fx { bits: clip_mag(q, neg) }
}

pub fn fx_div(a: Fx, b: Fx) -> (r: Fx)
    ensures
        fxv(r) == fx_div_v(fxv(a), fxv(b)),
{
    if b.bits == 0 {
        if a.bits == 0 {
            Fx { bits: 0 }
        } else if a.bits < 0 {
            Fx { bits: -FX_MAX_BITS }
        } else {
            Fx { bits: FX_MAX_BITS }
        }
    } else {
        let ma = mag_u128(a.bits);
        let mb = mag_u128(b.bits);
        proof {
            assert(ma * (FX_SCALE as u128) <= 0x8000_0000_0000_0000u128 * 65536)
                by (nonlinear_arith)
                requires
                    ma <= 0x8000_0000_0000_0000u128,
                    FX_SCALE == 65536,
            ;
            assert(mb as int > 0);
        }
        let p = ma * (FX_SCALE as u128);
        let q = p / mb;
        let neg = (a.bits < 0) != (b.bits < 0);
        proof {
            assert(q as int == ((abs(fxv(a)) * (FX_SCALE as nat)) / abs(fxv(b))) as int)
                by (nonlinear_arith)
                requires
                    ma as int == abs(fxv(a)),
                    mb as int == abs(fxv(b)),
                    mb > 0,
                    p == ma * (FX_SCALE as u128),
                    q == p / mb,
                    FX_SCALE == 65536,
            ;
        }
        Fx { bits: clip_mag(q, neg) }
    }
}

/// Divide a scalar by a positive count, e.g. for an arithmetic mean.
pub fn fx_div_n(a: Fx, n: usize) -> (r: Fx)
    requires
        n >= 1,
    ensures
        fxv(r) == fx_div_n_v(fxv(a), n as int),
{
    let ma = mag_u128(a.bits);
    let q = ma / (n as u128);
    proof {
        assert(q as int == (abs(fxv(a)) / abs(n as int)) as int) by (nonlinear_arith)
            requires
                ma as int == abs(fxv(a)),
                n >= 1,
                q == ma / (n as u128),
        ;
    }
    Fx { bits: clip_mag(q, a.bits < 0) }
}

pub fn fx_half(a: Fx) -> (r: Fx)
    ensures
        fxv(r) == fx_half_v(fxv(a)),
{
    let ma = mag_u128(a.bits);
    let q = ma / 2;
    proof {
        assert(fx_clip(apply_sign(a.bits < 0, q as int)) == fx_half_v(fxv(a)));
    }
    Fx { bits: clip_mag(q, a.bits < 0) }
}

pub fn fx_lt(a: Fx, b: Fx) -> (r: bool)
    ensures
        r == (fxv(a) < fxv(b)),
{
    a.bits < b.bits
}

pub fn fx_le(a: Fx, b: Fx) -> (r: bool)
    ensures
        r == (fxv(a) <= fxv(b)),
{
    a.bits <= b.bits
}

pub fn fx_min(a: Fx, b: Fx) -> (r: Fx)
    ensures
        fxv(r) == fx_min_v(fxv(a), fxv(b)),
{
    if a.bits < b.bits {
        a
    } else {
        b
    }
}

pub fn fx_max(a: Fx, b: Fx) -> (r: Fx)
    ensures
        fxv(r) == fx_max_v(fxv(a), fxv(b)),
{
    if a.bits > b.bits {
        a
    } else {
        b
    }
}

/// Square root of a scalar (zero for negative input).
pub fn fx_sqrt(a: Fx) -> (r: Fx)
    ensures
        fxv(r) == fx_sqrt_v(fxv(a)),
{
    if a.bits < 0 {
        Fx { bits: 0 }
    } else {
        let n = (a.bits as u128) * (FX_SCALE as u128);
        let s = isqrt_u128(n);
        proof {
            lemma_sqrt_floor_unique(n as int, s as int);
            assert(s < 0x1_0000_0000_0000u128) by (nonlinear_arith)
                requires
                    is_sqrt_floor(n as int, s as int),
                    n <= 0x7fff_ffff_ffff_ffffu128 * 65536,
            ;
            assert(n as int == fxv(a) * (FX_SCALE as int));
        }
        Fx { bits: s as i64 }
    }
}

/// Binary-search integer square root, rounded down.
pub fn isqrt_u128(n: u128) -> (r: u128)
    ensures
        is_sqrt_floor(n as int, r as int),
{
    let mut lo: u128 = 0;
    let mut hi: u128 = 0x1_0000_0000_0000_0000u128;
    proof {
        assert((hi as int) * (hi as int) > n as int) by (nonlinear_arith)
            requires
                hi == 0x1_0000_0000_0000_0000u128,
                n <= u128::MAX,
        ;
    }
    while lo + 1 < hi
        invariant
            lo < hi <= 0x1_0000_0000_0000_0000u128,
            (lo as int) * (lo as int) <= n as int,
            (n as int) < (hi as int) * (hi as int),
        decreases hi - lo,
    {
        let mid = lo + (hi - lo) / 2;
        proof {
            assert(mid * mid <= u128::MAX) by (nonlinear_arith)
                requires
                    mid < 0x1_0000_0000_0000_0000u128,
            ;
        }
        if mid * mid <= n {
            lo = mid;
        } else {
            hi = mid;
        }
    }
    lo
}

} // verus!
