use vstd::prelude::*;
use crate::fx::{Fx, fxv, fx_clip, fx_neg_v, fx_neg};
use crate::path::{Path2D, Point, Pt, resample_v, rotate_v, scale_v, translate_v, iangle_v};

verus! {

/// Number of points in a canonical path.
pub const NUM_POINTS: usize = 64;

/// Side of the canonical bounding square, in coordinate units.
pub const SQUARE_SIZE_UNITS: i64 = 250;

/// The canonical square side as a scalar value, in ticks.
pub open spec fn square_size_v() -> int {
    fx_clip(250int * 65536)
}

/// The canonical form of a raw path: resampled to `NUM_POINTS` points,
/// derotated so the indicative angle becomes zero, scaled so the bounding
/// box spans the canonical square, and translated so the centroid lands on
/// the origin. This pipeline is the single definition of "canonical".
pub open spec fn canonical_v(s: Seq<Pt>) -> Seq<Pt> {
    let res = resample_v(s, NUM_POINTS as int);
    let rot = rotate_v(res, fx_neg_v(iangle_v(res)));
    let sc = scale_v(rot, square_size_v());
    translate_v(sc, Pt { x: 0, y: 0 })
}

/// Run the normalization pipeline on a non-empty raw path.
pub fn canonical_path(points: &Path2D) -> (r: Path2D)
    requires
        points@.len() >= 1,
    ensures
        r@ == canonical_v(points@),
        r@.len() == NUM_POINTS,
{
    let resampled = points.resample(NUM_POINTS);
    let radians = resampled.indicative_angle();
    let rotated = resampled.rotate_by(fx_neg(radians));
    let scaled = rotated.scale_by(Fx::from_int(SQUARE_SIZE_UNITS));
    scaled.translate_to(Point { x: Fx::zero(), y: Fx::zero() })
}

/// A normalized gesture template.
pub struct Template {
    /// The name of this template.
    pub name: String,
    /// The canonical path that makes up this gesture.
    pub path: Path2D,
}

#[derive(Debug, PartialEq, Eq, Structural)]
pub enum TemplateError {
    /// The provided path was empty.
    PathEmpty,
}

impl Template {
    /// Create a new normalized template from a path of arbitrary points.
    /// Fails exactly when the path is empty.
    pub fn new(name: String, points: &Path2D) -> (r: Result<Template, TemplateError>)
        ensures
            (points@.len() == 0) <==> (r == Err::<Template, TemplateError>(
                TemplateError::PathEmpty,
            )),
            r matches Ok(t) ==> t.name@ == name@ && t.path@ == canonical_v(points@),
    {
        if points.len() == 0 {
            return Err(TemplateError::PathEmpty);
        }
        let path = canonical_path(points);
        Ok(Template { name, path })
    }

    /// Create a new template from a path of previously-normalized points.
    /// This should only be used for previously-constructed template data
    /// (e.g. templates restored from storage): the path is taken as already
    /// canonical and is not re-normalized. Fails exactly when the path is
    /// empty.
    pub fn new_from_template(name: String, points: Path2D) -> (r: Result<Template, TemplateError>)
        ensures
            (points@.len() == 0) <==> (r == Err::<Template, TemplateError>(
                TemplateError::PathEmpty,
            )),
            r matches Ok(t) ==> t.name@ == name@ && t.path@ == points@,
    {
        if points.len() == 0 {
            return Err(TemplateError::PathEmpty);
        }
        Ok(Template { name, path: points })
    }
}

} // verus!
