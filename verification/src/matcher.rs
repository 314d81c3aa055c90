use vstd::prelude::*;
use vstd::math::abs;
use crate::fx::{
    Fx, fxv, fx_clip, fx_sub_v, fx_mul_v, fx_div_v, fx_sqrt_v, fx_sub, fx_mul, fx_div, fx_lt,
    fx_neg, FX_MAX_BITS,
};
use crate::path::{Path2D, Pt, dist_at_angle_v, path_len_v, GSS_ANGLE_LIMIT_BITS};
use crate::template::{Template, canonical_v, canonical_path};

verus! {

#[derive(Debug, PartialEq, Eq, Structural)]
pub enum Error {
    /// The provided path was too short to complete the match.
    TooShort,
    /// No template match was possible.
    NoMatch,
}

/// Minimum raw arc length, in coordinate units, of a matchable stroke,
/// measured before normalization.
pub const MIN_LENGTH_UNITS: i64 = 100;

pub open spec fn min_length_v() -> int {
    fx_clip(100int * 65536)
}

/// Whether a stroke is too small or degenerate to be a meaningful gesture:
/// fewer than two points, or raw arc length under the fixed minimum.
pub open spec fn too_short_v(s: Seq<Pt>) -> bool {
    s.len() < 2 || path_len_v(s) < min_length_v()
}

/// Degrees to radians: multiply by pi and divide by 180, in fixed point.
pub open spec fn deg_to_rad_v(deg: int) -> int {
    fx_div_v(fx_mul_v(deg, 205887), fx_clip(180int * 65536))
}

pub fn deg_to_rad(deg: Fx) -> (r: Fx)
    ensures
        fxv(r) == deg_to_rad_v(fxv(deg)),
{
    fx_div(fx_mul(deg, Fx::from_bits(crate::trig::FX_PI_BITS)), Fx::from_int(180))
}

/// A non-negative angle within the search limit converts to a non-negative
/// radian count within the search limit.
pub proof fn lemma_deg_to_rad_bounds(deg: int)
    requires
        0 <= deg <= GSS_ANGLE_LIMIT_BITS as int,
    ensures
        0 <= deg_to_rad_v(deg) <= GSS_ANGLE_LIMIT_BITS as int,
{
    let q = ((abs(deg) * abs(205887)) / (65536 as nat)) as int;
    assert(abs(deg) == deg && abs(205887) == 205887);
    assert(0 <= q && q <= 4 * deg) by (nonlinear_arith)
        requires
            q == ((deg as nat) * (205887 as nat)) / (65536 as nat),
            deg >= 0,
    ;
    let m = fx_mul_v(deg, 205887);
    assert(m == fx_clip(q));
    assert(0 <= m <= 4 * (GSS_ANGLE_LIMIT_BITS as int));
    let q2 = ((abs(m) * (65536 as nat)) / abs(11796480)) as int;
    assert(abs(m) == m && abs(11796480) == 11796480);
    assert(0 <= q2 && 180 * q2 <= m) by (nonlinear_arith)
        requires
            q2 == ((m as nat) * (65536 as nat)) / (11796480 as nat),
            m >= 0,
    ;
    assert(q2 <= GSS_ANGLE_LIMIT_BITS as int) by (nonlinear_arith)
        requires
            180 * q2 <= m,
            0 <= m <= 4 * (GSS_ANGLE_LIMIT_BITS as int),
            q2 >= 0,
    ;
    assert(fx_clip(180int * 65536) == 11796480);
    assert(deg_to_rad_v(deg) == fx_clip(q2));
}

/// Half the diagonal of the canonical square: the largest meaningful mean
/// distance between two canonical paths, used to turn a distance into a score.
pub open spec fn half_diagonal_v() -> int {
    fx_mul_v(
        32768,
        fx_sqrt_v(fx_mul_v(fx_clip(2int * 65536), fx_mul_v(fx_clip(250int * 65536), fx_clip(250int * 65536)))),
    )
}

/// A distance converted to a similarity score: `1 - d / half_diagonal`,
/// roughly in `[0, 1]` (pathological inputs can fall slightly outside).
pub open spec fn score_v(d: int) -> int {
    fx_sub_v(65536, fx_div_v(d, half_diagonal_v()))
}

fn half_diagonal() -> (r: Fx)
    ensures
        fxv(r) == half_diagonal_v(),
{
    let sq = Fx::from_int(250);
    let two = Fx::from_int(2);
    fx_mul(Fx::from_bits(32768), crate::fx::fx_sqrt(fx_mul(two, fx_mul(sq, sq))))
}

/// `d` is a distance the angle search can report between a canonical
/// candidate and a template, over rotations within `[-rad, rad]` (up to the
/// quantization slack of the search probes).
pub open spec fn achieved_dist(d: int, cand: Seq<Pt>, tmpl: Seq<Pt>, rad: int) -> bool {
    exists|ang: int| -rad - 2 < ang < rad + 2 && d == dist_at_angle_v(cand, tmpl, ang)
}

/// What a match outcome states, given the per-template distances `ds` that
/// the angle search produced: the winner is the first template attaining the
/// minimal distance, scored against the canonical half-diagonal; there is no
/// match exactly when no distance beats the saturated maximum (in particular
/// when there are no templates).
pub open spec fn match_outcome<'a>(
    templates: Seq<Template>,
    r: Result<(&'a Template, Fx), Error>,
    cand: Seq<Pt>,
    rad: int,
    ds: Seq<int>,
) -> bool {
    &&& ds.len() == templates.len()
    &&& (forall|j: int| 0 <= j < ds.len() ==> achieved_dist(ds[j], cand, templates[j].path@, rad))
    &&& (r == Err::<(&'a Template, Fx), Error>(Error::NoMatch) <==> (forall|j: int|
        0 <= j < ds.len() ==> ds[j] >= FX_MAX_BITS as int))
    &&& (r matches Ok(p) ==> exists|i: int|
        {
            &&& 0 <= i < ds.len()
            &&& ds[i] < FX_MAX_BITS as int
            &&& (forall|j: int| 0 <= j < ds.len() ==> ds[i] <= ds[j])
            &&& (forall|j: int| 0 <= j < i ==> ds[i] < ds[j])
            &&& *(p.0) == templates[i]
            &&& fxv(p.1) == score_v(ds[i])
        })
}

/// Given a set of templates and a path, returns the template that is the
/// closest match together with a similarity score (the closer to one, the
/// more exact the match).
///
/// The contract: a stroke with fewer than two points or raw length under the
/// minimum is rejected as too short. Otherwise the candidate is normalized
/// and the angle search yields one distance per template; the winner is the
/// first template attaining the minimal distance, scored against the
/// canonical half-diagonal, and there is no match exactly when no distance
/// beats the saturated maximum (in particular when there are no templates).
pub fn find_matching_template<'a, 'b>(
    templates: &'a [Template],
    path: &'b Path2D,
    angle_range: Fx,
    angle_precision: Fx,
) -> (r: Result<(&'a Template, Fx), Error>)
    requires
        0 <= fxv(angle_range) <= GSS_ANGLE_LIMIT_BITS as int,
    ensures
        too_short_v(path@) <==> r == Err::<(&'a Template, Fx), Error>(Error::TooShort),
        !too_short_v(path@) ==> exists|ds: Seq<int>| #[trigger]
            match_outcome(
                templates@,
                r,
                canonical_v(path@),
                deg_to_rad_v(fxv(angle_range)),
                ds,
            ),
{
    let n_pts = path.len();
    let plen = path.length();
    if n_pts < 2 || fx_lt(plen, Fx::from_int(MIN_LENGTH_UNITS)) {
        return Err(Error::TooShort);
    }
    let candidate = canonical_path(path);
    let ghost radv = deg_to_rad_v(fxv(angle_range));
    let rad = deg_to_rad(angle_range);
    proof {
        lemma_deg_to_rad_bounds(fxv(angle_range));
    }
    let neg_rad = fx_neg(rad);
    let prec = deg_to_rad(angle_precision);
    let n = templates.len();
    let mut best = Fx::from_bits(FX_MAX_BITS);
    let mut best_idx: usize = 0;
    let mut found = false;
    let ghost mut ds = Seq::<int>::empty();
    let mut i: usize = 0;
    while i < n
        invariant
            n == templates@.len(),
            i <= n,
            ds.len() == i,
            candidate@ == canonical_v(path@),
            candidate@.len() >= 1,
            fxv(rad) == radv,
            0 <= radv <= GSS_ANGLE_LIMIT_BITS as int,
            fxv(neg_rad) == -radv,
            forall|j: int|
                0 <= j < i ==> achieved_dist(ds[j], canonical_v(path@), templates@[j].path@, radv),
            !found ==> fxv(best) == FX_MAX_BITS as int && (forall|j: int|
                0 <= j < i ==> ds[j] >= FX_MAX_BITS as int),
            found ==> best_idx < i && fxv(best) == ds[best_idx as int] && ds[best_idx as int]
                < FX_MAX_BITS as int && (forall|j: int|
                0 <= j < i ==> ds[best_idx as int] <= ds[j]) && (forall|j: int|
                0 <= j < best_idx ==> ds[best_idx as int] < ds[j]),
        decreases n - i,
    {
        let d = candidate.distance_at_best_angle(&templates[i].path, neg_rad, rad, prec);
        proof {
            ds = ds.push(fxv(d));
        }
        if fx_lt(d, best) {
            best = d;
            best_idx = i;
            found = true;
        }
        i = i + 1;
    }
    if !found {
        let r: Result<(&'a Template, Fx), Error> = Err(Error::NoMatch);
        proof {
            assert(match_outcome(templates@, r, canonical_v(path@), radv, ds));
        }
        return r;
    }
    let halfd = half_diagonal();
    let one = Fx::from_int(1);
    let score = fx_sub(one, fx_div(best, halfd));
    let r: Result<(&'a Template, Fx), Error> = Ok((&templates[best_idx], score));
    proof {
        assert(fxv(one) == 65536);
        let p = r->Ok_0;
        assert({
            &&& 0 <= best_idx < ds.len()
            &&& ds[best_idx as int] < FX_MAX_BITS as int
            &&& (forall|j: int| 0 <= j < ds.len() ==> ds[best_idx as int] <= ds[j])
            &&& (forall|j: int| 0 <= j < best_idx ==> ds[best_idx as int] < ds[j])
            &&& *(p.0) == templates@[best_idx as int]
            &&& fxv(p.1) == score_v(ds[best_idx as int])
        });
        assert(match_outcome(templates@, r, canonical_v(path@), radv, ds));
    }
    r
}

/// Match with the default parameters: rotations within a 90 degree range
/// (-45 to 45 degrees) searched to 2 degrees of precision.
pub fn find_matching_template_with_defaults<'a, 'b>(
    templates: &'a [Template],
    path: &'b Path2D,
) -> (r: Result<(&'a Template, Fx), Error>)
    ensures
        too_short_v(path@) <==> r == Err::<(&'a Template, Fx), Error>(Error::TooShort),
        !too_short_v(path@) ==> exists|ds: Seq<int>| #[trigger]
            match_outcome(
                templates@,
                r,
                canonical_v(path@),
                deg_to_rad_v(fx_clip(45int * 65536)),
                ds,
            ),
{
    find_matching_template(templates, path, Fx::from_int(45), Fx::from_int(2))
}

} // verus!
