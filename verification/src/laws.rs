use vstd::prelude::*;
use vstd::math::abs;
use crate::fx::{
    fx_clip, fx_add_v, fx_sub_v, fx_mul_v, fx_div_v, fx_div_n_v, fx_min_v, fx_max_v, FX_MAX_BITS,
    lemma_sqrt_floor_unique, lemma_fx_mul_approx, lemma_fx_mul_monotone,
};
use crate::path::{
    Pt, dist_v, pd_sum_pfx, path_dist_v, sum_x_pfx, sum_y_pfx, centroid_v, translate_v, scale_v,
    min_x_pfx, max_x_pfx, min_y_pfx, max_y_pfx, bbox_min_x, bbox_max_x, bbox_min_y, bbox_max_y,
};
use crate::template::square_size_v;

verus! {

pub proof fn lemma_dist_symmetric(p: Pt, q: Pt)
    ensures
        dist_v(p, q) == dist_v(q, p),
{
    let dx = fx_sub_v(p.x, q.x);
    let dy = fx_sub_v(p.y, q.y);
    let ex = fx_sub_v(q.x, p.x);
    let ey = fx_sub_v(q.y, p.y);
    assert(ex == -dx && ey == -dy);
    assert(ex * ex == dx * dx && ey * ey == dy * dy) by (nonlinear_arith)
        requires
            ex == -dx && ey == -dy,
    ;
}

proof fn lemma_pd_sum_symmetric(a: Seq<Pt>, b: Seq<Pt>, i: int)
    requires
        i <= a.len() && i <= b.len(),
    ensures
        pd_sum_pfx(a, b, i) == pd_sum_pfx(b, a, i),
    decreases i,
{
    if i > 0 {
        lemma_pd_sum_symmetric(a, b, i - 1);
        lemma_dist_symmetric(b[i - 1], a[i - 1]);
    }
}

/// LAW: the mean pointwise distance is symmetric in its two paths, for any
/// two paths whatsoever (the mismatched-length sentinel is symmetric too).
pub proof fn lemma_path_distance_symmetric(a: Seq<Pt>, b: Seq<Pt>)
    ensures
        path_dist_v(a, b) == path_dist_v(b, a),
{
    if a.len() == b.len() {
        lemma_pd_sum_symmetric(a, b, a.len() as int);
    }
}

proof fn lemma_pd_sum_self(a: Seq<Pt>, i: int)
    requires
        i <= a.len(),
    ensures
        pd_sum_pfx(a, a, i) == 0,
    decreases i,
{
    if i > 0 {
        lemma_pd_sum_self(a, i - 1);
        lemma_sqrt_floor_unique(0, 0);
        assert(dist_v(a[i - 1], a[i - 1]) == 0);
    }
}

/// LAW: the mean pointwise distance between a path and itself is zero.
pub proof fn lemma_path_distance_self(a: Seq<Pt>)
    ensures
        path_dist_v(a, a) == 0,
{
    if a.len() > 0 {
        lemma_pd_sum_self(a, a.len() as int);
        assert(abs(0) == 0);
        assert(fx_div_n_v(0, a.len() as int) == 0);
    }
}

/// All coordinates of `s` are within `bound` ticks of zero.
pub open spec fn coords_bounded(s: Seq<Pt>, bound: int) -> bool {
    forall|j: int|
        0 <= j < s.len() ==> -bound <= #[trigger] s[j].x <= bound && -bound <= s[j].y <= bound
}

proof fn lemma_sums_bounded(s: Seq<Pt>, bound: int, i: int)
    requires
        0 <= bound,
        coords_bounded(s, bound),
        0 <= i <= s.len(),
        (s.len() as int) * bound <= FX_MAX_BITS as int,
    ensures
        -(i * bound) <= sum_x_pfx(s, i) <= i * bound,
        -(i * bound) <= sum_y_pfx(s, i) <= i * bound,
    decreases i,
{
    if i > 0 {
        lemma_sums_bounded(s, bound, i - 1);
        assert((i - 1) * bound + bound == i * bound && i * bound <= (s.len() as int) * bound)
            by (nonlinear_arith)
            requires
                0 <= bound,
                i <= s.len() as int,
        ;
    }
}

proof fn lemma_sums_shift(s: Seq<Pt>, t: Seq<Pt>, dx: int, dy: int, bound: int, i: int)
    requires
        0 <= bound,
        coords_bounded(s, bound),
        t.len() == s.len(),
        forall|j: int|
            0 <= j < s.len() ==> t[j].x == fx_add_v(s[j].x, dx) && t[j].y == fx_add_v(s[j].y, dy),
        -bound <= dx <= bound,
        -bound <= dy <= bound,
        2 * (s.len() as int) * bound <= FX_MAX_BITS as int,
        0 <= i <= s.len(),
    ensures
        sum_x_pfx(t, i) == sum_x_pfx(s, i) + i * dx,
        sum_y_pfx(t, i) == sum_y_pfx(s, i) + i * dy,
    decreases i,
{
    if i > 0 {
        assert((s.len() as int) * bound <= FX_MAX_BITS as int) by (nonlinear_arith)
            requires
                2 * (s.len() as int) * bound <= FX_MAX_BITS as int,
                bound >= 0,
                s.len() >= 0,
        ;
        lemma_sums_shift(s, t, dx, dy, bound, i - 1);
        lemma_sums_bounded(s, bound, i - 1);
        lemma_sums_bounded(s, bound, i);
        assert((i - 1) * bound + bound == i * bound && (i - 1) * bound + (i - 1) * bound <= 2 * (
        s.len() as int) * bound - 2 * bound && i * bound + i * bound <= 2 * (s.len() as int)
            * bound && (i - 1) * dx + dx == i * dx && (i - 1) * dy + dy == i * dy && -((i - 1)
            * bound) <= (i - 1) * dx <= (i - 1) * bound && -(i * bound) <= i * dx <= i * bound && -(
        (i - 1) * bound) <= (i - 1) * dy <= (i - 1) * bound && -(i * bound) <= i * dy <= i * bound)
            by (nonlinear_arith)
            requires
                0 <= bound,
                1 <= i <= s.len() as int,
                -bound <= dx <= bound,
                -bound <= dy <= bound,
        ;
    }
}

proof fn lemma_div_n_remainder(a: int, n: int)
    requires
        1 <= n,
        -(FX_MAX_BITS as int) <= a <= FX_MAX_BITS as int,
    ensures
        -n < a - n * fx_div_n_v(a, n) < n,
{
    let m = abs(a) as int;
    let q = m / n;
    assert(n * q <= m < n * (q + 1) && 0 <= q <= m) by (nonlinear_arith)
        requires
            m >= 0,
            n >= 1,
            q == m / n,
    ;
    assert(fx_div_n_v(a, n) == if a < 0 {
        -q
    } else {
        q
    });
    assert(n * (-q) == -(n * q) && n * (q + 1) == n * q + n) by (nonlinear_arith);
}

/// LAW: translating a path to the origin puts its centroid exactly at the
/// origin. The centroid itself is rounded, but the same rounding cancels
/// when the centroid of the translated path is taken, provided the
/// coordinates are small enough that no saturation occurs anywhere.
pub proof fn lemma_translate_centroid_origin(s: Seq<Pt>, bound: int)
    requires
        s.len() >= 1,
        0 <= bound,
        2 * (s.len() as int) * bound <= FX_MAX_BITS as int,
        coords_bounded(s, bound),
    ensures
        centroid_v(translate_v(s, Pt { x: 0, y: 0 })) == (Pt { x: 0, y: 0 }),
{
    let n = s.len() as int;
    let t = translate_v(s, Pt { x: 0, y: 0 });
    let c = centroid_v(s);
    let sumx = sum_x_pfx(s, n);
    let sumy = sum_y_pfx(s, n);
    assert(n * bound <= FX_MAX_BITS as int && 2 * n * bound == 2 * (n * bound)) by (nonlinear_arith)
        requires
            2 * n * bound <= FX_MAX_BITS as int,
            n >= 1,
            bound >= 0,
    ;
    lemma_sums_bounded(s, bound, n);
    let qx = (abs(sumx) / (n as nat)) as int;
    let qy = (abs(sumy) / (n as nat)) as int;
    assert(0 <= qx <= bound && 0 <= qy <= bound) by (nonlinear_arith)
        requires
            qx == (abs(sumx) as int) / n,
            qy == (abs(sumy) as int) / n,
            abs(sumx) <= n * bound,
            abs(sumy) <= n * bound,
            n >= 1,
            bound >= 0,
    ;
    assert(c.x == fx_div_n_v(sumx, n) && c.y == fx_div_n_v(sumy, n));
    assert(-bound <= c.x <= bound && -bound <= c.y <= bound);
    let dx = fx_sub_v(0, c.x);
    let dy = fx_sub_v(0, c.y);
    assert(dx == -c.x && dy == -c.y);
    lemma_sums_shift(s, t, dx, dy, bound, n);
    lemma_div_n_remainder(sumx, n);
    lemma_div_n_remainder(sumy, n);
    let remx = sum_x_pfx(t, n);
    let remy = sum_y_pfx(t, n);
    assert(n * dx == -(n * c.x) && n * dy == -(n * c.y)) by (nonlinear_arith)
        requires
            dx == -c.x,
            dy == -c.y,
    ;
    assert(-n < remx < n && -n < remy < n);
    assert(abs(remx) < n && abs(remy) < n);
    assert((abs(remx) as int) / n == 0 && (abs(remy) as int) / n == 0) by (nonlinear_arith)
        requires
            abs(remx) < n,
            abs(remy) < n,
            n >= 1,
    ;
    assert(t.len() == n);
    assert(centroid_v(t).x == fx_div_n_v(remx, n) && centroid_v(t).y == fx_div_n_v(remy, n));
    assert(fx_div_n_v(remx, n) == 0 && fx_div_n_v(remy, n) == 0);
}

/// The bounding box of a scaled path is the scaled bounding box: the
/// per-axis factors are non-negative, so scaling is monotone per axis.
proof fn lemma_bbox_scale(r: Seq<Pt>, size: int, i: int)
    requires
        r.len() >= 1,
        1 <= i <= r.len(),
        size >= 0,
    ensures
        min_x_pfx(scale_v(r, size), i) == fx_mul_v(
            min_x_pfx(r, i),
            fx_div_v(size, fx_sub_v(bbox_max_x(r), bbox_min_x(r))),
        ),
        max_x_pfx(scale_v(r, size), i) == fx_mul_v(
            max_x_pfx(r, i),
            fx_div_v(size, fx_sub_v(bbox_max_x(r), bbox_min_x(r))),
        ),
        min_y_pfx(scale_v(r, size), i) == fx_mul_v(
            min_y_pfx(r, i),
            fx_div_v(size, fx_sub_v(bbox_max_y(r), bbox_min_y(r))),
        ),
        max_y_pfx(scale_v(r, size), i) == fx_mul_v(
            max_y_pfx(r, i),
            fx_div_v(size, fx_sub_v(bbox_max_y(r), bbox_min_y(r))),
        ),
    decreases i,
{
    let xf = fx_div_v(size, fx_sub_v(bbox_max_x(r), bbox_min_x(r)));
    let yf = fx_div_v(size, fx_sub_v(bbox_max_y(r), bbox_min_y(r)));
    assert(xf >= 0 && yf >= 0);
    if i > 1 {
        lemma_bbox_scale(r, size, i - 1);
        lemma_fx_mul_monotone(xf, fx_min_v(min_x_pfx(r, i - 1), r[i - 1].x), fx_max_v(min_x_pfx(r, i - 1), r[i - 1].x));
        lemma_fx_mul_monotone(xf, fx_min_v(max_x_pfx(r, i - 1), r[i - 1].x), fx_max_v(max_x_pfx(r, i - 1), r[i - 1].x));
        lemma_fx_mul_monotone(yf, fx_min_v(min_y_pfx(r, i - 1), r[i - 1].y), fx_max_v(min_y_pfx(r, i - 1), r[i - 1].y));
        lemma_fx_mul_monotone(yf, fx_min_v(max_y_pfx(r, i - 1), r[i - 1].y), fx_max_v(max_y_pfx(r, i - 1), r[i - 1].y));
    }
}

/// Shifting every point by the same offset shifts the bounding box by that
/// offset, exactly, when no coordinate saturates.
proof fn lemma_bbox_shift(s: Seq<Pt>, t: Seq<Pt>, dx: int, dy: int, bnd: int, i: int)
    requires
        s.len() >= 1,
        1 <= i <= s.len(),
        0 <= bnd,
        2 * bnd <= FX_MAX_BITS as int,
        coords_bounded(s, bnd),
        -bnd <= dx <= bnd,
        -bnd <= dy <= bnd,
        t.len() == s.len(),
        forall|j: int|
            0 <= j < s.len() ==> t[j].x == fx_add_v(s[j].x, dx) && t[j].y == fx_add_v(s[j].y, dy),
    ensures
        min_x_pfx(t, i) == min_x_pfx(s, i) + dx,
        max_x_pfx(t, i) == max_x_pfx(s, i) + dx,
        min_y_pfx(t, i) == min_y_pfx(s, i) + dy,
        max_y_pfx(t, i) == max_y_pfx(s, i) + dy,
        -bnd <= min_x_pfx(s, i) <= bnd && -bnd <= max_x_pfx(s, i) <= bnd,
        -bnd <= min_y_pfx(s, i) <= bnd && -bnd <= max_y_pfx(s, i) <= bnd,
    decreases i,
{
    if i > 1 {
        lemma_bbox_shift(s, t, dx, dy, bnd, i - 1);
    }
}

proof fn lemma_bbox_bounded(s: Seq<Pt>, bnd: int, i: int)
    requires
        s.len() >= 1,
        1 <= i <= s.len(),
        0 <= bnd,
        coords_bounded(s, bnd),
    ensures
        -bnd <= min_x_pfx(s, i) <= bnd && -bnd <= max_x_pfx(s, i) <= bnd,
        -bnd <= min_y_pfx(s, i) <= bnd && -bnd <= max_y_pfx(s, i) <= bnd,
    decreases i,
{
    if i > 1 {
        lemma_bbox_bounded(s, bnd, i - 1);
    }
}

/// LAW: for a non-degenerate path, scaling to the canonical square and
/// translating to the origin yields a bounding box whose width and height
/// are the canonical size, within a relative tolerance well under one part
/// in a thousand. Degenerate inputs (an axis narrower than one unit) and
/// coordinates large enough to saturate the arithmetic are excluded.
pub proof fn lemma_canonical_box_size(r: Seq<Pt>)
    requires
        1 <= r.len() <= 0x10_0000,
        coords_bounded(r, 0x8000_0000),
        65536 <= bbox_max_x(r) - bbox_min_x(r) <= 0x2000_0000,
        65536 <= bbox_max_y(r) - bbox_min_y(r) <= 0x2000_0000,
    ensures
        ({
            let out = translate_v(scale_v(r, square_size_v()), Pt { x: 0, y: 0 });
            &&& square_size_v() - 16384 <= bbox_max_x(out) - bbox_min_x(out) <= square_size_v()
                + 16384
            &&& square_size_v() - 16384 <= bbox_max_y(out) - bbox_min_y(out) <= square_size_v()
                + 16384
        }),
{
    let n = r.len() as int;
    let sq = square_size_v();
    assert(sq == 16384000);
    let mnx = bbox_min_x(r);
    let mxx = bbox_max_x(r);
    let mny = bbox_min_y(r);
    let mxy = bbox_max_y(r);
    let w = fx_sub_v(mxx, mnx);
    let h = fx_sub_v(mxy, mny);
    assert(w == mxx - mnx && h == mxy - mny);
    lemma_bbox_bounded(r, 0x8000_0000, n);
    let xf = fx_div_v(sq, w);
    let yf = fx_div_v(sq, h);
    // the scale factors are the rounded quotients, and are at most `sq`
    let qx = ((abs(sq) * 65536nat) / abs(w)) as int;
    let qy = ((abs(sq) * 65536nat) / abs(h)) as int;
    assert(abs(sq) == sq && abs(w) == w && abs(h) == h);
    assert(0 <= qx <= sq && qx * w <= sq * 65536 < qx * w + w) by (nonlinear_arith)
        requires
            qx == (sq * 65536) / w,
            65536 <= w,
            sq == 16384000,
    ;
    assert(0 <= qy <= sq && qy * h <= sq * 65536 < qy * h + h) by (nonlinear_arith)
        requires
            qy == (sq * 65536) / h,
            65536 <= h,
            sq == 16384000,
    ;
    assert(xf == qx && yf == qy);
    let sc = scale_v(r, sq);
    lemma_bbox_scale(r, sq, n);
    // each scaled coordinate is within one tick of the exact proportion
    assert(xf * abs(mxx) <= 65536 * (FX_MAX_BITS as int) && xf * abs(mnx) <= 65536 * (
    FX_MAX_BITS as int) && yf * abs(mxy) <= 65536 * (FX_MAX_BITS as int) && yf * abs(mny) <= 65536
        * (FX_MAX_BITS as int)) by (nonlinear_arith)
        requires
            0 <= xf <= 16384000,
            0 <= yf <= 16384000,
            abs(mxx) <= 0x8000_0000,
            abs(mnx) <= 0x8000_0000,
            abs(mxy) <= 0x8000_0000,
            abs(mny) <= 0x8000_0000,
    ;
    lemma_fx_mul_approx(mxx, xf);
    lemma_fx_mul_approx(mnx, xf);
    lemma_fx_mul_approx(mxy, yf);
    lemma_fx_mul_approx(mny, yf);
    let wsc = bbox_max_x(sc) - bbox_min_x(sc);
    let hsc = bbox_max_y(sc) - bbox_min_y(sc);
    assert(65536 * wsc == 65536 * bbox_max_x(sc) - 65536 * bbox_min_x(sc) && 65536 * hsc == 65536
        * bbox_max_y(sc) - 65536 * bbox_min_y(sc)) by (nonlinear_arith)
        requires
            wsc == bbox_max_x(sc) - bbox_min_x(sc),
            hsc == bbox_max_y(sc) - bbox_min_y(sc),
    ;
    assert(xf * mxx - xf * mnx == xf * w && yf * mxy - yf * mny == yf * h) by (nonlinear_arith)
        requires
            w == mxx - mnx,
            h == mxy - mny,
    ;
    assert(sq * 65536 - w - 131072 < 65536 * wsc < sq * 65536 + 131072 + w);
    assert(sq * 65536 - h - 131072 < 65536 * hsc < sq * 65536 + 131072 + h);
    assert(sq - 16384 <= wsc <= sq + 16384 && sq - 16384 <= hsc <= sq + 16384) by (nonlinear_arith)
        requires
            sq * 65536 - w - 131072 < 65536 * wsc < sq * 65536 + 131072 + w,
            sq * 65536 - h - 131072 < 65536 * hsc < sq * 65536 + 131072 + h,
            65536 <= w <= 0x2000_0000,
            65536 <= h <= 0x2000_0000,
            sq == 16384000,
    ;
    // every scaled coordinate is bounded, so the translation is exact
    let cbnd: int = 0x100_0000_0000;
    assert forall|j: int| 0 <= j < sc.len() implies -cbnd <= #[trigger] sc[j].x <= cbnd && -cbnd
        <= sc[j].y <= cbnd by {
        let vx = r[j].x;
        let vy = r[j].y;
        assert(-0x8000_0000 <= vx <= 0x8000_0000 && -0x8000_0000 <= vy <= 0x8000_0000);
        assert(xf * abs(vx) <= 65536 * (FX_MAX_BITS as int) && yf * abs(vy) <= 65536 * (
        FX_MAX_BITS as int) && -(65536 * (cbnd - 1)) <= xf * vx <= 65536 * (cbnd - 1) && -(65536 * (
        cbnd - 1)) <= yf * vy <= 65536 * (cbnd - 1)) by (nonlinear_arith)
            requires
                0 <= xf <= 16384000,
                0 <= yf <= 16384000,
                abs(vx) <= 0x8000_0000,
                abs(vy) <= 0x8000_0000,
                -0x8000_0000 <= vx <= 0x8000_0000,
                -0x8000_0000 <= vy <= 0x8000_0000,
                cbnd == 0x100_0000_0000,
        ;
        lemma_fx_mul_approx(vx, xf);
        lemma_fx_mul_approx(vy, yf);
        assert(-cbnd <= sc[j].x <= cbnd && -cbnd <= sc[j].y <= cbnd) by (nonlinear_arith)
            requires
                xf * vx - 65536 < 65536 * sc[j].x < xf * vx + 65536,
                yf * vy - 65536 < 65536 * sc[j].y < yf * vy + 65536,
                -(65536 * (cbnd - 1)) <= xf * vx <= 65536 * (cbnd - 1),
                -(65536 * (cbnd - 1)) <= yf * vy <= 65536 * (cbnd - 1),
                cbnd > 1,
        ;
    }
    assert(coords_bounded(sc, cbnd));
    // the centroid of the scaled path, and hence the shift, is bounded too
    assert(n * cbnd <= FX_MAX_BITS as int && 2 * (n * cbnd) <= FX_MAX_BITS as int)
        by (nonlinear_arith)
        requires
            1 <= n <= 0x10_0000,
            cbnd == 0x100_0000_0000,
    ;
    lemma_sums_bounded(sc, cbnd, n);
    let sumx = sum_x_pfx(sc, n);
    let sumy = sum_y_pfx(sc, n);
    let cqx = (abs(sumx) / (n as nat)) as int;
    let cqy = (abs(sumy) / (n as nat)) as int;
    assert(0 <= cqx <= cbnd && 0 <= cqy <= cbnd) by (nonlinear_arith)
        requires
            cqx == (abs(sumx) as int) / n,
            cqy == (abs(sumy) as int) / n,
            abs(sumx) <= n * cbnd,
            abs(sumy) <= n * cbnd,
            n >= 1,
            cbnd >= 0,
    ;
    let c = centroid_v(sc);
    assert(-cbnd <= c.x <= cbnd && -cbnd <= c.y <= cbnd);
    let out = translate_v(sc, Pt { x: 0, y: 0 });
    let dx = fx_sub_v(0, c.x);
    let dy = fx_sub_v(0, c.y);
    assert(dx == -c.x && dy == -c.y);
    lemma_bbox_shift(sc, out, dx, dy, cbnd, n);
}

} // verus!
