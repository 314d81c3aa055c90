use vstd::prelude::*;
use vstd::math::abs;
use crate::fx::{
    Fx, PathCoord, fxv, fx_clip, fx_add_v, fx_sub_v, fx_mul_v, fx_div_v, fx_div_n_v, fx_min_v,
    sqrt_floor, is_sqrt_floor, lemma_sqrt_floor_exists, lemma_sqrt_floor_unique,
    fx_add, fx_sub, fx_mul, fx_div, fx_div_n, fx_min, fx_lt, FX_MAX_BITS,
};
use crate::trig::{sin_v, cos_v, fx_sin, fx_cos};

verus! {

/// The mathematical model of a sample point: a pair of fixed-point tick values.
pub struct Pt {
    pub x: int,
    pub y: int,
}

/// A 2d point with fixed-point coordinates.
#[derive(Clone, Copy, PartialEq, Eq, Structural, Debug)]
pub struct Point {
    pub x: Fx,
    pub y: Fx,
}

/// The model of a concrete point.
pub open spec fn ptv(p: Point) -> Pt {
    Pt { x: fxv(p.x), y: fxv(p.y) }
}

/// The model of a sequence of concrete points.
pub open spec fn ptsv(s: Seq<Point>) -> Seq<Pt> {
    s.map_values(|p: Point| ptv(p))
}

/// A 2d path made up of (x, y) point values, in traversal order.
#[derive(Debug, Clone)]
pub struct Path2D {
    points: Vec<Point>,
}

impl View for Path2D {
    type V = Seq<Pt>;

    closed spec fn view(&self) -> Seq<Pt> {
        ptsv(self.points@)
    }
}

impl Default for Path2D {
    /// The empty path.
    fn default() -> (r: Path2D)
        ensures
            r@ == Seq::<Pt>::empty(),
    {
        let r = Path2D { points: Vec::new() };
        proof {
            assert(r@ =~= Seq::<Pt>::empty());
        }
        r
    }
}

/// Euclidean distance between two points: exact squared length under an
/// integer square root, saturating at the largest representable scalar.
pub open spec fn dist_v(p: Pt, q: Pt) -> int {
    let dx = fx_sub_v(p.x, q.x);
    let dy = fx_sub_v(p.y, q.y);
    fx_min_v(sqrt_floor(dx * dx + dy * dy), FX_MAX_BITS as int)
}

pub proof fn lemma_dist_nonneg(p: Pt, q: Pt)
    ensures
        0 <= dist_v(p, q) <= FX_MAX_BITS as int,
{
    let dx = fx_sub_v(p.x, q.x);
    let dy = fx_sub_v(p.y, q.y);
    assert(dx * dx + dy * dy >= 0) by (nonlinear_arith);
    lemma_sqrt_floor_exists(dx * dx + dy * dy);
}

/// Distance between two concrete points.
pub fn dist(p: Point, q: Point) -> (r: Fx)
    ensures
        fxv(r) == dist_v(ptv(p), ptv(q)),
{
    let dx = fx_sub(p.x, q.x);
    let dy = fx_sub(p.y, q.y);
    let bx = dx.to_bits();
    let by = dy.to_bits();
    proof {
        assert((bx as i128) * (bx as i128) <= 0x8000_0000_0000_0000i128 * 0x8000_0000_0000_0000i128
            && (bx as i128) * (bx as i128) >= 0) by (nonlinear_arith)
            requires
                -0x8000_0000_0000_0000i128 <= bx as i128 <= 0x7fff_ffff_ffff_ffffi128,
        ;
        assert((by as i128) * (by as i128) <= 0x8000_0000_0000_0000i128 * 0x8000_0000_0000_0000i128
            && (by as i128) * (by as i128) >= 0) by (nonlinear_arith)
            requires
                -0x8000_0000_0000_0000i128 <= by as i128 <= 0x7fff_ffff_ffff_ffffi128,
        ;
    }
    let sx: i128 = (bx as i128) * (bx as i128);
    let sy: i128 = (by as i128) * (by as i128);
    let s: u128 = (sx as u128) + (sy as u128);
    let cap: u128 = (FX_MAX_BITS as u128) * (FX_MAX_BITS as u128);
    if s >= cap {
        proof {
            lemma_sqrt_floor_exists(s as int);
            let r = sqrt_floor(s as int);
            assert(r >= FX_MAX_BITS as int) by (nonlinear_arith)
                requires
                    is_sqrt_floor(s as int, r),
                    s as int >= (FX_MAX_BITS as int) * (FX_MAX_BITS as int),
            ;
        }
        Fx::from_bits(FX_MAX_BITS)
    } else {
        let r = crate::fx::isqrt_u128(s);
        proof {
            lemma_sqrt_floor_unique(s as int, r as int);
            assert((r as int) < (FX_MAX_BITS as int)) by (nonlinear_arith)
                requires
                    is_sqrt_floor(s as int, r as int),
                    (s as int) < (FX_MAX_BITS as int) * (FX_MAX_BITS as int),
                    FX_MAX_BITS as int > 0,
            ;
        }
        Fx::from_bits(r as i64)
    }
}

/// Accumulated polyline length over the first `i` points, folding left with
/// saturating addition.
pub open spec fn path_len_pfx(s: Seq<Pt>, i: int) -> int
    decreases i,
{
    if i < 2 {
        0
    } else {
        fx_add_v(path_len_pfx(s, i - 1), dist_v(s[i - 2], s[i - 1]))
    }
}

/// Total polyline length: the sum of the distances between consecutive points.
pub open spec fn path_len_v(s: Seq<Pt>) -> int {
    path_len_pfx(s, s.len() as int)
}

/// Saturating left-fold of the x coordinates of the first `i` points.
pub open spec fn sum_x_pfx(s: Seq<Pt>, i: int) -> int
    decreases i,
{
    if i <= 0 {
        0
    } else {
        fx_add_v(sum_x_pfx(s, i - 1), s[i - 1].x)
    }
}

/// Saturating left-fold of the y coordinates of the first `i` points.
pub open spec fn sum_y_pfx(s: Seq<Pt>, i: int) -> int
    decreases i,
{
    if i <= 0 {
        0
    } else {
        fx_add_v(sum_y_pfx(s, i - 1), s[i - 1].y)
    }
}

/// Arithmetic mean of the points (meaningful only for a non-empty path).
pub open spec fn centroid_v(s: Seq<Pt>) -> Pt {
    Pt {
        x: fx_div_n_v(sum_x_pfx(s, s.len() as int), s.len() as int),
        y: fx_div_n_v(sum_y_pfx(s, s.len() as int), s.len() as int),
    }
}

pub open spec fn min_x_pfx(s: Seq<Pt>, i: int) -> int
    decreases i,
{
    if i <= 1 {
        s[0].x
    } else {
        fx_min_v(min_x_pfx(s, i - 1), s[i - 1].x)
    }
}

pub open spec fn max_x_pfx(s: Seq<Pt>, i: int) -> int
    decreases i,
{
    if i <= 1 {
        s[0].x
    } else {
        crate::fx::fx_max_v(max_x_pfx(s, i - 1), s[i - 1].x)
    }
}

pub open spec fn min_y_pfx(s: Seq<Pt>, i: int) -> int
    decreases i,
{
    if i <= 1 {
        s[0].y
    } else {
        fx_min_v(min_y_pfx(s, i - 1), s[i - 1].y)
    }
}

pub open spec fn max_y_pfx(s: Seq<Pt>, i: int) -> int
    decreases i,
{
    if i <= 1 {
        s[0].y
    } else {
        crate::fx::fx_max_v(max_y_pfx(s, i - 1), s[i - 1].y)
    }
}

pub open spec fn bbox_min_x(s: Seq<Pt>) -> int {
    min_x_pfx(s, s.len() as int)
}

pub open spec fn bbox_max_x(s: Seq<Pt>) -> int {
    max_x_pfx(s, s.len() as int)
}

pub open spec fn bbox_min_y(s: Seq<Pt>) -> int {
    min_y_pfx(s, s.len() as int)
}

pub open spec fn bbox_max_y(s: Seq<Pt>) -> int {
    max_y_pfx(s, s.len() as int)
}

/// Every point shifted by the same offset, chosen so the centroid lands on
/// `dest`, up to the rounding of the centroid itself.
pub open spec fn translate_v(s: Seq<Pt>, dest: Pt) -> Seq<Pt> {
    let c = centroid_v(s);
    let dx = fx_sub_v(dest.x, c.x);
    let dy = fx_sub_v(dest.y, c.y);
    Seq::new(s.len(), |i: int| (Pt { x: fx_add_v(s[i].x, dx), y: fx_add_v(s[i].y, dy) }))
}

/// Non-uniform rescaling of each axis so the bounding box spans `size`
/// in both dimensions. A zero-extent axis saturates the factor; since all
/// coordinates on such an axis are equal, they stay equal.
pub open spec fn scale_v(s: Seq<Pt>, size: int) -> Seq<Pt> {
    let fx = fx_div_v(size, fx_sub_v(bbox_max_x(s), bbox_min_x(s)));
    let fy = fx_div_v(size, fx_sub_v(bbox_max_y(s), bbox_min_y(s)));
    Seq::new(s.len(), |i: int| (Pt { x: fx_mul_v(s[i].x, fx), y: fx_mul_v(s[i].y, fy) }))
}

/// Every point rotated about the centroid by `ang` (ticks of radians);
/// the centroid itself stays fixed up to rounding.
pub open spec fn rotate_v(s: Seq<Pt>, ang: int) -> Seq<Pt> {
    let c = centroid_v(s);
    let sn = sin_v(ang);
    let cs = cos_v(ang);
    Seq::new(
        s.len(),
        |i: int|
            {
                let dx = fx_sub_v(s[i].x, c.x);
                let dy = fx_sub_v(s[i].y, c.y);
                Pt {
                    x: fx_add_v(fx_sub_v(fx_mul_v(dx, cs), fx_mul_v(dy, sn)), c.x),
                    y: fx_add_v(fx_add_v(fx_mul_v(dx, sn), fx_mul_v(dy, cs)), c.y),
                }
            },
    )
}

/// The angle from the first point to the centroid.
pub open spec fn iangle_v(s: Seq<Pt>) -> int {
    let c = centroid_v(s);
    crate::trig::atan2_v(fx_sub_v(c.y, s[0].y), fx_sub_v(c.x, s[0].x))
}

/// Saturating sum of the pointwise distances between two equal-length paths.
pub open spec fn pd_sum_pfx(a: Seq<Pt>, b: Seq<Pt>, i: int) -> int
    decreases i,
{
    if i <= 0 {
        0
    } else {
        fx_add_v(pd_sum_pfx(a, b, i - 1), dist_v(b[i - 1], a[i - 1]))
    }
}

/// Mean pointwise distance between two paths; the saturated maximum when the
/// point counts differ, and zero for two empty paths.
pub open spec fn path_dist_v(a: Seq<Pt>, b: Seq<Pt>) -> int {
    if a.len() != b.len() {
        FX_MAX_BITS as int
    } else if a.len() == 0 {
        0
    } else {
        fx_div_n_v(pd_sum_pfx(a, b, a.len() as int), a.len() as int)
    }
}

/// Mean pointwise distance after rotating the candidate by `ang`.
pub open spec fn dist_at_angle_v(s: Seq<Pt>, t: Seq<Pt>, ang: int) -> int {
    path_dist_v(rotate_v(s, ang), t)
}

/// Points emitted while resampling one polyline segment from `a` to `b`:
/// whenever the distance accumulated since the last emitted point would pass
/// the interval, the crossing point is found by linear interpolation, emitted,
/// and the walk continues from it; at most `room` points are emitted. Returns
/// the emitted points and the accumulated distance left for the next segment.
pub open spec fn seg_walk(a: Pt, b: Pt, dacc: int, ival: int, room: int) -> (Seq<Pt>, int)
    decreases room,
{
    let d = dist_v(a, b);
    if room <= 0 || fx_add_v(dacc, d) <= ival {
        (Seq::<Pt>::empty(), fx_add_v(dacc, d))
    } else {
        let t = fx_div_v(fx_sub_v(ival, dacc), d);
        let q = Pt {
            x: fx_add_v(a.x, fx_mul_v(t, fx_sub_v(b.x, a.x))),
            y: fx_add_v(a.y, fx_mul_v(t, fx_sub_v(b.y, a.y))),
        };
        let rest = seg_walk(q, b, 0, ival, room - 1);
        (seq![q] + rest.0, rest.1)
    }
}

/// The resampling walk over the segments of `s` from segment `i` on.
pub open spec fn walk_pts(s: Seq<Pt>, i: int, dacc: int, ival: int, room: int) -> Seq<Pt>
    decreases s.len() - i,
{
    if i < 1 || i >= s.len() {
        Seq::<Pt>::empty()
    } else {
        let sw = seg_walk(s[i - 1], s[i], dacc, ival, room);
        sw.0 + walk_pts(s, i + 1, sw.1, ival, room - sw.0.len())
    }
}

/// Append `p` until the sequence holds `count` points. This both applies the
/// final-point correction (the walk stops one short when rounding slack eats
/// the last interval) and keeps the point count exact for degenerate paths.
pub open spec fn pad_pts(acc: Seq<Pt>, p: Pt, count: int) -> Seq<Pt>
    decreases count - acc.len(),
{
    if acc.len() >= count {
        acc
    } else {
        pad_pts(acc.push(p), p, count)
    }
}

/// The equal arc-length interval between resampled points.
pub open spec fn resample_ival(s: Seq<Pt>, count: int) -> int {
    fx_div_n_v(path_len_v(s), count - 1)
}

/// `count` points spaced at equal arc-length intervals along `s`.
pub open spec fn resample_v(s: Seq<Pt>, count: int) -> Seq<Pt> {
    let ival = resample_ival(s, count);
    pad_pts(seq![s[0]] + walk_pts(s, 1, 0, ival, count - 1), s.last(), count)
}

pub proof fn lemma_seg_walk_len(a: Pt, b: Pt, dacc: int, ival: int, room: int)
    ensures
        seg_walk(a, b, dacc, ival, room).0.len() <= vstd::math::max(room, 0),
    decreases room,
{
    let d = dist_v(a, b);
    if room <= 0 || fx_add_v(dacc, d) <= ival {
    } else {
        let t = fx_div_v(fx_sub_v(ival, dacc), d);
        let q = Pt {
            x: fx_add_v(a.x, fx_mul_v(t, fx_sub_v(b.x, a.x))),
            y: fx_add_v(a.y, fx_mul_v(t, fx_sub_v(b.y, a.y))),
        };
        lemma_seg_walk_len(q, b, 0, ival, room - 1);
    }
}

/// One resampling step: walk the segment from `a` to `b`, appending the
/// emitted points to `out`.
fn seg_walk_exec(a: Point, b: Point, dacc: Fx, ival: Fx, room: usize, out: &mut Vec<Point>) -> (dret: Fx)
    ensures
        ptsv(final(out)@) == ptsv(old(out)@) + seg_walk(
            ptv(a), ptv(b), fxv(dacc), fxv(ival), room as int).0,
        fxv(dret) == seg_walk(ptv(a), ptv(b), fxv(dacc), fxv(ival), room as int).1,
        final(out)@.len() == old(out)@.len() + seg_walk(
            ptv(a), ptv(b), fxv(dacc), fxv(ival), room as int).0.len(),
    decreases room,
{
    let ghost sw = seg_walk(ptv(a), ptv(b), fxv(dacc), fxv(ival), room as int);
    let d = dist(a, b);
    let nd = fx_add(dacc, d);
    if room > 0 && fx_lt(ival, nd) {
        let t = fx_div(fx_sub(ival, dacc), d);
        let q = Point {
            x: fx_add(a.x, fx_mul(t, fx_sub(b.x, a.x))),
            y: fx_add(a.y, fx_mul(t, fx_sub(b.y, a.y))),
        };
        let ghost mid = out@;
        out.push(q);
        proof {
            assert(ptsv(out@) =~= ptsv(mid).push(ptv(q)));
        }
        let dret = seg_walk_exec(q, b, Fx::zero(), ival, room - 1, out);
        proof {
            let rest = seg_walk(ptv(q), ptv(b), 0, fxv(ival), room - 1);
            assert(sw.0 =~= seq![ptv(q)] + rest.0);
            assert(ptsv(out@) =~= ptsv(mid) + sw.0);
        }
        dret
    } else {
        proof {
            assert(ptsv(out@) =~= ptsv(old(out)@) + sw.0);
        }
        nd
    }
}

/// Largest angle magnitude, in ticks of radians, accepted by the angle search.
pub const GSS_ANGLE_LIMIT_BITS: i64 = 0x100_0000_0000;

/// The golden ratio `(sqrt(5) - 1) / 2` as the library computes it.
pub open spec fn phi_v() -> int {
    fx_mul_v(
        32768,
        fx_add_v(crate::fx::fx_neg_v(65536), crate::fx::fx_sqrt_v(fx_clip(5int * 65536))),
    )
}

pub proof fn lemma_phi_value()
    ensures
        phi_v() == 40503,
{
    assert(146542 * 146542 <= 21474836480 && 21474836480 < 146543 * 146543);
    assert(is_sqrt_floor(21474836480, 146542));
    lemma_sqrt_floor_unique(21474836480, 146542);
    assert(fx_clip(5int * 65536) == 327680);
    assert(crate::fx::fx_sqrt_v(327680) == 146542);
    assert(fx_add_v(crate::fx::fx_neg_v(65536), 146542) == 81006);
    assert(abs(32768) == 32768 && abs(81006) == 81006);
    assert((abs(32768) * abs(81006)) as int == 2654404608) by (nonlinear_arith)
        requires
            abs(32768) == 32768 && abs(81006) == 81006,
    ;
    assert(2654404608nat / 65536nat == 40503) by (nonlinear_arith);
    assert(fx_mul_v(32768, 81006) == 40503);
}

/// The interior probe of a golden-section bracket, weighted toward `a`.
pub open spec fn gss_x_v(a: int, b: int) -> int {
    fx_add_v(fx_mul_v(phi_v(), a), fx_mul_v(fx_sub_v(65536, phi_v()), b))
}

/// A probe lies within the span of its two endpoints, up to rounding.
pub proof fn lemma_gss_x_range(p: int, q: int)
    requires
        -(GSS_ANGLE_LIMIT_BITS as int) <= p <= GSS_ANGLE_LIMIT_BITS as int,
        -(GSS_ANGLE_LIMIT_BITS as int) <= q <= GSS_ANGLE_LIMIT_BITS as int,
    ensures
        fx_min_v(p, q) - 2 < gss_x_v(p, q) < crate::fx::fx_max_v(p, q) + 2,
{
    lemma_phi_value();
    crate::fx::lemma_fx_mul_factor_bounds(40503, p);
    crate::fx::lemma_fx_mul_factor_bounds(25033, q);
    let m1 = fx_mul_v(40503, p);
    let m2 = fx_mul_v(25033, q);
    assert(65536 * (m1 + m2) == 65536 * m1 + 65536 * m2) by (nonlinear_arith);
    assert(gss_x_v(p, q) == m1 + m2);
    assert(65536 * (fx_min_v(p, q) - 2) < 65536 * (m1 + m2) < 65536 * (crate::fx::fx_max_v(p, q)
        + 2)) by (nonlinear_arith)
        requires
            40503 * p - 65536 < 65536 * m1 < 40503 * p + 65536,
            25033 * q - 65536 < 65536 * m2 < 25033 * q + 65536,
    ;
    assert(fx_min_v(p, q) - 2 < m1 + m2 < crate::fx::fx_max_v(p, q) + 2) by (nonlinear_arith)
        requires
            65536 * (fx_min_v(p, q) - 2) < 65536 * (m1 + m2) < 65536 * (crate::fx::fx_max_v(p, q)
                + 2),
    ;
}


/// An axis-aligned bounding box.
#[derive(Clone, Copy, Debug)]
pub struct Rect {
    pub min_x: Fx,
    pub min_y: Fx,
    pub max_x: Fx,
    pub max_y: Fx,
}

impl Rect {
    pub fn width(&self) -> (r: Fx)
        ensures
            fxv(r) == fx_sub_v(fxv(self.max_x), fxv(self.min_x)),
    {
        fx_sub(self.max_x, self.min_x)
    }

    pub fn height(&self) -> (r: Fx)
        ensures
            fxv(r) == fx_sub_v(fxv(self.max_y), fxv(self.min_y)),
    {
        fx_sub(self.max_y, self.min_y)
    }
}

impl Path2D {
    /// Arithmetic mean of all point coordinates.
    pub fn centroid(&self) -> (r: Point)
        requires
            self@.len() >= 1,
        ensures
            ptv(r) == centroid_v(self@),
    {
        let n = self.points.len();
        let mut qx = Fx::zero();
        let mut qy = Fx::zero();
        let mut i: usize = 0;
        while i < n
            invariant
                n == self@.len(),
                self@.len() == self.points@.len(),
                i <= n,
                fxv(qx) == sum_x_pfx(self@, i as int),
                fxv(qy) == sum_y_pfx(self@, i as int),
            decreases n - i,
        {
            let p = self.points[i];
            qx = fx_add(qx, p.x);
            qy = fx_add(qy, p.y);
            i = i + 1;
        }
        Point { x: fx_div_n(qx, n), y: fx_div_n(qy, n) }
    }

    /// Min/max over all points in each axis.
    pub fn bounding_rect(&self) -> (r: Rect)
        requires
            self@.len() >= 1,
        ensures
            fxv(r.min_x) == bbox_min_x(self@),
            fxv(r.max_x) == bbox_max_x(self@),
            fxv(r.min_y) == bbox_min_y(self@),
            fxv(r.max_y) == bbox_max_y(self@),
    {
        let n = self.points.len();
        let first = self.points[0];
        let mut mnx = first.x;
        let mut mxx = first.x;
        let mut mny = first.y;
        let mut mxy = first.y;
        let mut i: usize = 1;
        while i < n
            invariant
                n == self@.len(),
                self@.len() == self.points@.len(),
                n >= 1,
                1 <= i <= n,
                fxv(mnx) == min_x_pfx(self@, i as int),
                fxv(mxx) == max_x_pfx(self@, i as int),
                fxv(mny) == min_y_pfx(self@, i as int),
                fxv(mxy) == max_y_pfx(self@, i as int),
            decreases n - i,
        {
            let p = self.points[i];
            mnx = fx_min(mnx, p.x);
            mxx = crate::fx::fx_max(mxx, p.x);
            mny = fx_min(mny, p.y);
            mxy = crate::fx::fx_max(mxy, p.y);
            i = i + 1;
        }
        Rect { min_x: mnx, min_y: mny, max_x: mxx, max_y: mxy }
    }

    /// Shift every point by the same offset so the centroid lands on `dest`.
    pub fn translate_to(&self, dest: Point) -> (r: Path2D)
        requires
            self@.len() >= 1,
        ensures
            r@ == translate_v(self@, ptv(dest)),
    {
        let c = self.centroid();
        let dx = fx_sub(dest.x, c.x);
        let dy = fx_sub(dest.y, c.y);
        let n = self.points.len();
        let mut out: Vec<Point> = Vec::new();
        let mut i: usize = 0;
        while i < n
            invariant
                n == self@.len(),
                self@.len() == self.points@.len(),
                i <= n,
                fxv(dx) == fx_sub_v(ptv(dest).x, centroid_v(self@).x),
                fxv(dy) == fx_sub_v(ptv(dest).y, centroid_v(self@).y),
                out@.len() == i,
                forall|j: int|
                    0 <= j < i ==> ptv(out@[j]) == translate_v(self@, ptv(dest))[j],
            decreases n - i,
        {
            let p = self.points[i];
            out.push(Point { x: fx_add(p.x, dx), y: fx_add(p.y, dy) });
            i = i + 1;
        }
        let r = Path2D { points: out };
        proof {
            assert(r@ =~= translate_v(self@, ptv(dest)));
        }
        r
    }

    /// Rescale each axis so the bounding box fits a `size`-sided square.
    pub fn scale_by(&self, size: Fx) -> (r: Path2D)
        requires
            self@.len() >= 1,
        ensures
            r@ == scale_v(self@, fxv(size)),
    {
        let b = self.bounding_rect();
        let fxf = fx_div(size, b.width());
        let fyf = fx_div(size, b.height());
        let n = self.points.len();
        let mut out: Vec<Point> = Vec::new();
        let mut i: usize = 0;
        while i < n
            invariant
                n == self@.len(),
                self@.len() == self.points@.len(),
                i <= n,
                fxv(fxf) == fx_div_v(fxv(size), fx_sub_v(bbox_max_x(self@), bbox_min_x(self@))),
                fxv(fyf) == fx_div_v(fxv(size), fx_sub_v(bbox_max_y(self@), bbox_min_y(self@))),
                out@.len() == i,
                forall|j: int| 0 <= j < i ==> ptv(out@[j]) == scale_v(self@, fxv(size))[j],
            decreases n - i,
        {
            let p = self.points[i];
            out.push(Point { x: fx_mul(p.x, fxf), y: fx_mul(p.y, fyf) });
            i = i + 1;
        }
        let r = Path2D { points: out };
        proof {
            assert(r@ =~= scale_v(self@, fxv(size)));
        }
        r
    }

    /// Produce exactly `count` points spaced at equal arc-length intervals
    /// along this path.
    pub fn resample(&self, count: usize) -> (r: Path2D)
        requires
            self@.len() >= 1,
            2 <= count <= 0x7fff_ffff,
        ensures
            r@ == resample_v(self@, count as int),
            r@.len() == count,
    {
        let ghost s = self@;
        let ghost ival_v = resample_ival(s, count as int);
        let total = self.length();
        let ival = fx_div_n(total, count - 1);
        let n = self.points.len();
        let mut out: Vec<Point> = Vec::new();
        out.push(self.points[0]);
        proof {
            assert(ptsv(out@) =~= seq![s[0]]);
        }
        let mut dacc = Fx::zero();
        let mut room: usize = count - 1;
        let mut i: usize = 1;
        while i < n
            invariant
                n == s.len(),
                s == self@,
                self@.len() == self.points@.len(),
                1 <= i <= n,
                fxv(ival) == ival_v,
                room <= count - 1,
                out@.len() == count - room,
                ptsv(out@) + walk_pts(s, i as int, fxv(dacc), ival_v, room as int) =~= seq![
                    s[0],
                ] + walk_pts(s, 1, 0, ival_v, count - 1),
            decreases n - i,
        {
            let ghost dacc0 = fxv(dacc);
            let ghost sw = seg_walk(s[i - 1], s[i as int], dacc0, ival_v, room as int);
            let prev = out.len();
            dacc = seg_walk_exec(self.points[i - 1], self.points[i], dacc, ival, room, &mut out);
            proof {
                lemma_seg_walk_len(s[i - 1], s[i as int], dacc0, ival_v, room as int);
                assert(ptsv(out@) + walk_pts(s, i + 1, sw.1, ival_v, room - sw.0.len()) =~= seq![
                    s[0],
                ] + walk_pts(s, 1, 0, ival_v, count - 1));
            }
            let emitted = out.len() - prev;
            room = room - emitted;
            i = i + 1;
        }
        let last = self.points[n - 1];
        while out.len() < count
            invariant
                out@.len() <= count,
                ptv(last) == s.last(),
                pad_pts(ptsv(out@), s.last(), count as int) == pad_pts(
                    seq![s[0]] + walk_pts(s, 1, 0, ival_v, count - 1),
                    s.last(),
                    count as int,
                ),
            decreases count - out@.len(),
        {
            let ghost mid = out@;
            out.push(last);
            proof {
                assert(ptsv(out@) =~= ptsv(mid).push(s.last()));
            }
        }
        let r = Path2D { points: out };
        proof {
            assert(r@ == resample_v(s, count as int));
        }
        r
    }

    /// Rotate every point about the centroid by `radians`.
    pub fn rotate_by(&self, radians: Fx) -> (r: Path2D)
        requires
            self@.len() >= 1,
        ensures
            r@ == rotate_v(self@, fxv(radians)),
    {
        let c = self.centroid();
        let sn = fx_sin(radians);
        let cs = fx_cos(radians);
        let n = self.points.len();
        let mut out: Vec<Point> = Vec::new();
        let mut i: usize = 0;
        while i < n
            invariant
                n == self@.len(),
                self@.len() == self.points@.len(),
                i <= n,
                ptv(c) == centroid_v(self@),
                fxv(sn) == sin_v(fxv(radians)),
                fxv(cs) == cos_v(fxv(radians)),
                out@.len() == i,
                forall|j: int| 0 <= j < i ==> ptv(out@[j]) == rotate_v(self@, fxv(radians))[j],
            decreases n - i,
        {
            let p = self.points[i];
            let dx = fx_sub(p.x, c.x);
            let dy = fx_sub(p.y, c.y);
            let qx = fx_add(fx_sub(fx_mul(dx, cs), fx_mul(dy, sn)), c.x);
            let qy = fx_add(fx_add(fx_mul(dx, sn), fx_mul(dy, cs)), c.y);
            out.push(Point { x: qx, y: qy });
            i = i + 1;
        }
        let r = Path2D { points: out };
        proof {
            assert(r@ =~= rotate_v(self@, fxv(radians)));
        }
        r
    }

    /// The angle from the first point to the centroid.
    pub fn indicative_angle(&self) -> (r: Fx)
        requires
            self@.len() >= 1,
        ensures
            fxv(r) == iangle_v(self@),
    {
        let c = self.centroid();
        let first = self.points[0];
        crate::trig::fx_atan2(fx_sub(c.y, first.y), fx_sub(c.x, first.x))
    }

    /// Mean pointwise distance to another path of the same point count; the
    /// saturated maximum distance when the counts differ.
    pub fn path_distance(&self, other: &Path2D) -> (r: Fx)
        ensures
            fxv(r) == path_dist_v(self@, other@),
    {
        let n = self.points.len();
        if n != other.points.len() {
            return Fx::from_bits(FX_MAX_BITS);
        }
        if n == 0 {
            return Fx::zero();
        }
        let mut total = Fx::zero();
        let mut i: usize = 0;
        while i < n
            invariant
                n == self@.len(),
                n == other@.len(),
                self@.len() == self.points@.len(),
                other@.len() == other.points@.len(),
                i <= n,
                fxv(total) == pd_sum_pfx(self@, other@, i as int),
            decreases n - i,
        {
            let d = dist(other.points[i], self.points[i]);
            total = fx_add(total, d);
            i = i + 1;
        }
        fx_div_n(total, n)
    }

    /// One golden-section probe: the interior point weighted toward `a`, and
    /// the distance to the template at that rotation.
    fn gss(&self, a: Fx, b: Fx, template: &Path2D) -> (r: (Fx, Fx))
        requires
            self@.len() >= 1,
        ensures
            fxv(r.0) == gss_x_v(fxv(a), fxv(b)),
            fxv(r.1) == dist_at_angle_v(self@, template@, gss_x_v(fxv(a), fxv(b))),
    {
        let half = Fx::from_bits(32768);
        let one = Fx::from_int(1);
        let five = Fx::from_int(5);
        let phi = fx_mul(half, fx_add(crate::fx::fx_neg(one), crate::fx::fx_sqrt(five)));
        let x = fx_add(fx_mul(phi, a), fx_mul(fx_sub(one, phi), b));
        (x, self.distance_at_angle(template, x))
    }

    /// Golden-section search for the smallest distance to the template over
    /// rotations in `[from_angle, to_angle]`, narrowing the bracket until its
    /// width is at most `threshold`. The result is the distance actually
    /// achieved at one of the probed angles; the search relies on the
    /// distance being unimodal in the angle over the bracket, which is an
    /// approximation inherited from the underlying recognizer design, so the
    /// probed minimum may be local rather than global. When a quantized probe
    /// falls outside the open bracket — possible only once the bracket is
    /// within a few ticks of the fixed-point resolution — the bracket cannot
    /// shrink further and the search stops at the best distance seen.
    pub fn distance_at_best_angle(
        &self,
        template: &Path2D,
        from_angle: Fx,
        to_angle: Fx,
        threshold: Fx,
    ) -> (r: Fx)
        requires
            self@.len() >= 1,
            fxv(from_angle) <= fxv(to_angle),
            -(GSS_ANGLE_LIMIT_BITS as int) <= fxv(from_angle),
            fxv(to_angle) <= GSS_ANGLE_LIMIT_BITS as int,
        ensures
            exists|ang: int|
                fxv(from_angle) - 2 < ang < fxv(to_angle) + 2 && fxv(r) == dist_at_angle_v(
                    self@,
                    template@,
                    ang,
                ),
    {
        let ghost lo0 = fxv(from_angle);
        let ghost hi0 = fxv(to_angle);
        let mut from = from_angle;
        let mut to = to_angle;
        proof {
            lemma_gss_x_range(fxv(from), fxv(to));
            lemma_gss_x_range(fxv(to), fxv(from));
        }
        let g1 = self.gss(from, to, template);
        let mut x1 = g1.0;
        let mut f1 = g1.1;
        let g2 = self.gss(to, from, template);
        let mut x2 = g2.0;
        let mut f2 = g2.1;
        while fx_lt(threshold, fx_sub(to, from))
            invariant
                self@.len() >= 1,
                lo0 <= fxv(from) <= fxv(to) <= hi0,
                -(GSS_ANGLE_LIMIT_BITS as int) <= lo0,
                hi0 <= GSS_ANGLE_LIMIT_BITS as int,
                lo0 - 2 < fxv(x1) < hi0 + 2,
                lo0 - 2 < fxv(x2) < hi0 + 2,
                fxv(f1) == dist_at_angle_v(self@, template@, fxv(x1)),
                fxv(f2) == dist_at_angle_v(self@, template@, fxv(x2)),
            ensures
                lo0 - 2 < fxv(x1) < hi0 + 2,
                lo0 - 2 < fxv(x2) < hi0 + 2,
                fxv(f1) == dist_at_angle_v(self@, template@, fxv(x1)),
                fxv(f2) == dist_at_angle_v(self@, template@, fxv(x2)),
            decreases fxv(to) - fxv(from),
        {
            if fx_lt(f1, f2) {
                if !(fx_lt(from, x2) && fx_lt(x2, to)) {
                    break ;
                }
                to = x2;
                x2 = x1;
                f2 = f1;
                proof {
                    lemma_gss_x_range(fxv(from), fxv(to));
                }
                let g = self.gss(from, to, template);
                x1 = g.0;
                f1 = g.1;
            } else {
                if !(fx_lt(from, x1) && fx_lt(x1, to)) {
                    break ;
                }
                from = x1;
                x1 = x2;
                f1 = f2;
                proof {
                    lemma_gss_x_range(fxv(to), fxv(from));
                }
                let g = self.gss(to, from, template);
                x2 = g.0;
                f2 = g.1;
            }
        }
        fx_min(f1, f2)
    }

    /// Mean pointwise distance to a template after rotating by `radians`.
    pub fn distance_at_angle(&self, template: &Path2D, radians: Fx) -> (r: Fx)
        requires
            self@.len() >= 1,
        ensures
            fxv(r) == dist_at_angle_v(self@, template@, fxv(radians)),
    {
        let rotated = self.rotate_by(radians);
        rotated.path_distance(template)
    }

    /// The number of points in this path.
    pub fn len(&self) -> (r: usize)
        ensures
            r == self@.len(),
    {
        self.points.len()
    }

    /// Returns the list of points that make up this path.
    pub fn points(&self) -> (r: Vec<(PathCoord, PathCoord)>)
        ensures
            r@.len() == self@.len(),
            forall|i: int|
                0 <= i < r@.len() ==> fxv(r@[i].0) == self@[i].x && fxv(r@[i].1) == self@[i].y,
    {
        let mut r: Vec<(PathCoord, PathCoord)> = Vec::new();
        let n = self.points.len();
        let mut i: usize = 0;
        while i < n
            invariant
                n == self.points@.len(),
                i <= n,
                r@.len() == i,
                forall|j: int|
                    0 <= j < i ==> fxv(r@[j].0) == self@[j].x && fxv(r@[j].1) == self@[j].y,
            decreases n - i,
        {
            let p = self.points[i];
            r.push((p.x, p.y));
            i = i + 1;
        }
        r
    }

    /// Add a new point to this path.
    pub fn push(&mut self, x: PathCoord, y: PathCoord)
        ensures
            final(self)@ == old(self)@.push(Pt { x: fxv(x), y: fxv(y) }),
    {
        self.points.push(Point { x, y });
        proof {
            assert(self@ =~= old(self)@.push(Pt { x: fxv(x), y: fxv(y) }));
        }
    }

    /// Returns true if the provided point differs from the last point in this
    /// path (or the path is empty).
    pub fn is_new_point(&self, x: PathCoord, y: PathCoord) -> (r: bool)
        ensures
            r == (self@.len() == 0 || self@.last() != (Pt { x: fxv(x), y: fxv(y) })),
    {
        let n = self.points.len();
        if n == 0 {
            true
        } else {
            let last = self.points[n - 1];
            proof {
                crate::fx::lemma_fxv_bijective();
            }
            last != Point { x, y }
        }
    }

    /// Sum of Euclidean distances between consecutive points; 0 for fewer
    /// than two points, and never negative.
    pub fn length(&self) -> (r: Fx)
        ensures
            fxv(r) == path_len_v(self@),
            fxv(r) >= 0,
    {
        let n = self.points.len();
        let mut total = Fx::zero();
        if n < 2 {
            return total;
        }
        let mut i: usize = 1;
        while i < n
            invariant
                n == self@.len(),
                self@.len() == self.points@.len(),
                1 <= i <= n,
                fxv(total) == path_len_pfx(self@, i as int),
                fxv(total) >= 0,
            decreases n - i,
        {
            let d = dist(self.points[i - 1], self.points[i]);
            proof {
                lemma_dist_nonneg(self@[i - 1], self@[i as int]);
            }
            total = fx_add(total, d);
            i = i + 1;
        }
        total
    }
}

} // verus!
