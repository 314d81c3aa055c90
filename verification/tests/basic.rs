use guessture::fx::{fx_add, fx_div, fx_mul, fx_sqrt, fx_sub, Fx};
use guessture::{
    find_matching_template, find_matching_template_with_defaults, Error, Path2D, Template,
    TemplateError,
};

fn fx(units: f32) -> Fx {
    Fx::from_bits((units * 65536.0) as i64)
}

fn units(v: Fx) -> f32 {
    v.to_bits() as f32 / 65536.0
}

fn path_of(points: &[(f32, f32)]) -> Path2D {
    let mut p = Path2D::default();
    for &(x, y) in points {
        p.push(fx(x), fx(y));
    }
    p
}

#[test]
fn it_works() {
}

#[test]
fn fx_arithmetic_exact_values() {
    assert_eq!(Fx::from_int(3).to_bits(), 3 * 65536);
    assert_eq!(fx_add(Fx::from_int(2), Fx::from_int(5)).to_bits(), 7 * 65536);
    assert_eq!(fx_sub(Fx::from_int(2), Fx::from_int(5)).to_bits(), -3 * 65536);
    assert_eq!(fx_mul(Fx::from_int(6), Fx::from_int(7)).to_bits(), 42 * 65536);
    assert_eq!(fx_div(Fx::from_int(1), Fx::from_int(2)).to_bits(), 32768);
    assert_eq!(fx_sqrt(Fx::from_int(4)).to_bits(), 2 * 65536);
    assert_eq!(fx_sqrt(Fx::from_int(2)).to_bits(), 92681);
    let max = Fx::from_bits(i64::MAX);
    assert_eq!(fx_add(max, max).to_bits(), i64::MAX);
    assert_eq!(fx_div(Fx::from_int(1), Fx::from_bits(0)).to_bits(), i64::MAX);
}

#[test]
fn push_and_points_round_trip() {
    let p = path_of(&[(1.0, 2.0), (3.0, -4.5)]);
    let pts = p.points();
    assert_eq!(pts.len(), 2);
    assert_eq!(pts[0].0.to_bits(), 65536);
    assert_eq!(pts[0].1.to_bits(), 2 * 65536);
    assert_eq!(pts[1].1.to_bits(), (-4.5f32 * 65536.0) as i64);
}

#[test]
fn is_new_point_detects_duplicates() {
    let mut p = Path2D::default();
    assert!(p.is_new_point(fx(1.0), fx(1.0)));
    p.push(fx(1.0), fx(1.0));
    assert!(!p.is_new_point(fx(1.0), fx(1.0)));
    assert!(p.is_new_point(fx(1.0), fx(2.0)));
}

#[test]
fn length_of_polyline() {
    let p = path_of(&[(0.0, 0.0), (3.0, 4.0), (3.0, 14.0)]);
    // 5 + 10
    assert_eq!(p.length().to_bits(), 15 * 65536);
    let single = path_of(&[(7.0, 7.0)]);
    assert_eq!(single.length().to_bits(), 0);
}

#[test]
fn resample_yields_exact_count() {
    let p = path_of(&[(0.0, 0.0), (100.0, 0.0)]);
    assert_eq!(p.resample(64).len(), 64);
    let q = path_of(&[(0.0, 0.0), (50.0, 1.0), (100.0, 0.0)]);
    assert_eq!(q.resample(64).len(), 64);
    assert_eq!(q.resample(2).len(), 2);
    // a degenerate path with duplicate points still yields the exact count
    let r = path_of(&[(5.0, 5.0), (5.0, 5.0), (5.0, 5.0)]);
    assert_eq!(r.resample(64).len(), 64);
}

#[test]
fn resample_spacing_is_even() {
    let p = path_of(&[(0.0, 0.0), (100.0, 0.0)]);
    let r = p.resample(11);
    let pts = r.points();
    for (i, (x, y)) in pts.iter().enumerate() {
        assert!((units(*x) - 10.0 * i as f32).abs() < 0.01);
        assert!(units(*y).abs() < 0.01);
    }
}

#[test]
fn canonical_template_bounding_box_is_square() {
    // a bent stroke with genuine extent in both axes
    let p = path_of(&[(10.0, 20.0), (80.0, 90.0), (160.0, 40.0)]);
    let t = Template::new("bent".to_string(), &p).unwrap();
    let b = t.path.bounding_rect();
    let w = units(b.width());
    let h = units(b.height());
    assert!((w - 250.0).abs() < 0.25, "width {w}");
    assert!((h - 250.0).abs() < 0.25, "height {h}");
}

#[test]
fn canonical_template_centroid_is_origin() {
    let p = path_of(&[(10.0, 20.0), (80.0, 90.0), (160.0, 40.0)]);
    let t = Template::new("bent".to_string(), &p).unwrap();
    let c = t.path.centroid();
    assert_eq!(c.x.to_bits(), 0);
    assert_eq!(c.y.to_bits(), 0);
}

#[test]
fn path_distance_symmetric() {
    let a = path_of(&[(0.0, 0.0), (10.0, 0.0), (20.0, 5.0)]);
    let b = path_of(&[(1.0, 2.0), (9.0, -3.0), (18.0, 6.0)]);
    assert_eq!(a.path_distance(&b).to_bits(), b.path_distance(&a).to_bits());
}

#[test]
fn path_distance_to_self_is_zero() {
    let a = path_of(&[(0.0, 0.0), (10.0, 0.0), (20.0, 5.0)]);
    assert_eq!(a.path_distance(&a).to_bits(), 0);
}

#[test]
fn path_distance_exact_value() {
    // both pairs are 3-4-5 triangles, so the mean distance is exactly 5
    let a = path_of(&[(0.0, 0.0), (10.0, 10.0)]);
    let b = path_of(&[(3.0, 4.0), (13.0, 14.0)]);
    assert_eq!(a.path_distance(&b).to_bits(), 5 * 65536);
}

#[test]
fn path_distance_mismatched_lengths_is_sentinel() {
    let a = path_of(&[(0.0, 0.0), (10.0, 0.0)]);
    let b = path_of(&[(0.0, 0.0), (10.0, 0.0), (20.0, 0.0)]);
    assert_eq!(a.path_distance(&b).to_bits(), i64::MAX);
}

#[test]
fn match_rejects_one_point_stroke() {
    let p = path_of(&[(5.0, 5.0)]);
    let square = square_template();
    let templates = vec![square];
    assert!(matches!(
        find_matching_template_with_defaults(&templates, &p),
        Err(Error::TooShort)
    ));
}

#[test]
fn match_rejects_stroke_under_minimum_length() {
    // two points only 10 units apart: below the 100-unit minimum
    let p = path_of(&[(0.0, 0.0), (10.0, 0.0)]);
    let templates = vec![square_template()];
    assert!(matches!(
        find_matching_template_with_defaults(&templates, &p),
        Err(Error::TooShort)
    ));
}

#[test]
fn match_with_no_templates_is_no_match() {
    let p = path_of(&[(0.0, 0.0), (200.0, 0.0), (200.0, 200.0)]);
    let templates: Vec<Template> = Vec::new();
    assert!(matches!(
        find_matching_template_with_defaults(&templates, &p),
        Err(Error::NoMatch)
    ));
}

#[test]
fn template_from_empty_path_fails() {
    let p = Path2D::default();
    assert!(matches!(
        Template::new("empty".to_string(), &p),
        Err(TemplateError::PathEmpty)
    ));
    assert!(matches!(
        Template::new_from_template("empty".to_string(), p),
        Err(TemplateError::PathEmpty)
    ));
}

#[test]
fn template_from_canonical_path_is_kept_as_is() {
    let p = path_of(&[(10.0, 20.0), (80.0, 90.0), (160.0, 40.0)]);
    let t = Template::new("bent".to_string(), &p).unwrap();
    let canonical_points = t.path.points();
    let mut again = Path2D::default();
    for (x, y) in canonical_points {
        again.push(x, y);
    }
    let t2 = Template::new_from_template("bent".to_string(), again).unwrap();
    let a = t.path.points();
    let b = t2.path.points();
    assert_eq!(a.len(), b.len());
    for i in 0..a.len() {
        assert_eq!(a[i].0.to_bits(), b[i].0.to_bits());
        assert_eq!(a[i].1.to_bits(), b[i].1.to_bits());
    }
}

fn square_points() -> Vec<(f32, f32)> {
    let mut pts = vec![];
    for i in 0..10 {
        pts.push((i as f32 * 10.0, 0.0));
    }
    for i in 0..10 {
        pts.push((100.0, i as f32 * 10.0));
    }
    for i in 0..10 {
        pts.push((100.0 - i as f32 * 10.0, 100.0));
    }
    for i in 0..=10 {
        pts.push((0.0, 100.0 - i as f32 * 10.0));
    }
    pts
}

fn circle_points(cx: f32, cy: f32, radius: f32, n: usize) -> Vec<(f32, f32)> {
    let mut pts = vec![];
    for i in 0..=n {
        let a = (i as f32) * 2.0 * std::f32::consts::PI / (n as f32);
        pts.push((cx + radius * a.cos(), cy + radius * a.sin()));
    }
    pts
}

fn square_template() -> Template {
    Template::new("square".to_string(), &path_of(&square_points())).unwrap()
}

#[test]
fn duplicate_of_stored_template_wins_with_high_score() {
    let templates = vec![
        Template::new("line".to_string(), &path_of(&[(0.0, 0.0), (100.0, 0.0)])).unwrap(),
        square_template(),
        Template::new(
            "circle".to_string(),
            &path_of(&circle_points(50.0, 50.0, 50.0, 16)),
        )
        .unwrap(),
    ];
    let candidate = path_of(&square_points());
    let (best, score) = find_matching_template_with_defaults(&templates, &candidate).unwrap();
    assert_eq!(best.name, "square");
    assert!(score.to_bits() >= (0.95 * 65536.0) as i64, "score {}", units(score));
}

#[test]
fn match_with_explicit_parameters() {
    let templates = vec![square_template(), Template::new(
        "circle".to_string(),
        &path_of(&circle_points(50.0, 50.0, 50.0, 16)),
    )
    .unwrap()];
    // a rotated copy of the square still matches it within a wide range
    let rotated: Vec<(f32, f32)> = square_points()
        .iter()
        .map(|&(x, y)| {
            let (dx, dy) = (x - 50.0, y - 50.0);
            let a = 20.0f32.to_radians();
            (50.0 + dx * a.cos() - dy * a.sin(), 50.0 + dx * a.sin() + dy * a.cos())
        })
        .collect();
    let candidate = path_of(&rotated);
    let (best, score) =
        find_matching_template(&templates, &candidate, Fx::from_int(45), Fx::from_int(2)).unwrap();
    assert_eq!(best.name, "square");
    assert!(score.to_bits() > (0.9 * 65536.0) as i64, "score {}", units(score));
}

#[test]
fn rotation_moves_points_as_expected() {
    // rotating a segment by pi about its centroid swaps its endpoints
    let p = path_of(&[(0.0, 0.0), (100.0, 0.0)]);
    let pi = Fx::from_bits(205887);
    let r = p.rotate_by(pi);
    let pts = r.points();
    assert!((units(pts[0].0) - 100.0).abs() < 0.1);
    assert!((units(pts[1].0) - 0.0).abs() < 0.1);
}

#[test]
fn indicative_angle_of_diagonal_stroke() {
    // centroid at (1, 1), first point at the origin: the angle is pi / 4
    let p = path_of(&[(0.0, 0.0), (2.0, 2.0)]);
    let a = p.indicative_angle();
    assert!((a.to_bits() - 51472).abs() < 200, "angle {}", a.to_bits());
}

#[test]
fn best_angle_distance_of_identical_canonical_paths_is_small() {
    let t = square_template();
    let c = square_template();
    let two_deg = Fx::from_bits(2288);
    let forty_five = Fx::from_bits(51472);
    let neg = Fx::from_bits(-51472);
    let d = c.path.distance_at_best_angle(&t.path, neg, forty_five, two_deg);
    assert!(d.to_bits() >= 0);
    assert!(units(d) < 10.0, "distance {}", units(d));
}

#[test]
fn best_angle_search_terminates_at_tick_precision() {
    // even at one-tick precision the bracket search finishes and reports an
    // achieved, non-negative distance
    let t = square_template();
    let c = Template::new(
        "circle".to_string(),
        &path_of(&circle_points(50.0, 50.0, 50.0, 16)),
    )
    .unwrap();
    let one_tick = Fx::from_bits(1);
    let forty_five = Fx::from_bits(51472);
    let neg = Fx::from_bits(-51472);
    let d = c.path.distance_at_best_angle(&t.path, neg, forty_five, one_tick);
    assert!(d.to_bits() >= 0);
    assert!(d.to_bits() < i64::MAX);
}

#[test]
fn scenario_line_and_circle() {
    let templates = vec![
        Template::new("line".to_string(), &path_of(&[(0.0, 0.0), (100.0, 0.0)])).unwrap(),
        Template::new(
            "circle".to_string(),
            &path_of(&circle_points(50.0, 50.0, 50.0, 16)),
        )
        .unwrap(),
    ];
    // a near-straight stroke with a slight bow matches the line template;
    // the bow is amplified by the non-uniform canonical scaling, which caps
    // the attainable score well below an exact match
    let near_line = path_of(&[(0.0, 0.0), (50.0, 1.0), (100.0, 0.0)]);
    let r1 = find_matching_template_with_defaults(&templates, &near_line).unwrap();
    assert_eq!(r1.0.name, "line");
    assert!(r1.1.to_bits() > (0.5 * 65536.0) as i64, "score {}", units(r1.1));
    // a tight circle does not match the line with a high score: it matches
    // the circle template instead, and against the line alone scores low
    let circle = path_of(&circle_points(50.0, 50.0, 50.0, 16));
    let r2 = find_matching_template_with_defaults(&templates, &circle).unwrap();
    assert_eq!(r2.0.name, "circle");
    let line_only = vec![
        Template::new("line".to_string(), &path_of(&[(0.0, 0.0), (100.0, 0.0)])).unwrap(),
    ];
    let r3 = find_matching_template_with_defaults(&line_only, &circle).unwrap();
    assert!(r3.1.to_bits() < (0.6 * 65536.0) as i64, "score {}", units(r3.1));
}
