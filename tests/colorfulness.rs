use image_metrics::colorfulness::{colorfulness_moments, ColorMoments, ColorfulnessTerms};
use image_metrics::errors::{InputError, ProcessError};
use image_metrics::image::{split_planes, BgrImage, Plane};

fn plane(data: Vec<u8>) -> Plane {
    Plane::new(2, 2, data).unwrap()
}

fn score(t: &ColorfulnessTerms) -> f64 {
    ((t.spread as f64).sqrt() + 0.3 * (t.center as f64).sqrt()) / t.scale as f64
}

#[test]
fn uniform_gray_image_has_zero_colorfulness() {
    let img = BgrImage::new(3, 2, vec![128; 18]).unwrap();
    let planes = split_planes(&img);
    let m = colorfulness_moments(&planes).unwrap();
    assert_eq!(m, ColorMoments { pixels: 6, rg: 0, rg_sq: 0, yb: 0, yb_sq: 0 });
    let t = m.terms().unwrap();
    assert_eq!(t.spread, 0);
    assert_eq!(t.center, 0);
    assert_eq!(score(&t), 0.0);
}

#[test]
fn swapping_blue_and_red_changes_colorfulness() {
    let b = vec![0, 0, 0, 0];
    let g = vec![0, 0, 0, 0];
    let r = vec![100, 0, 0, 0];
    let bgr = vec![plane(b.clone()), plane(g.clone()), plane(r.clone())];
    let t = colorfulness_moments(&bgr).unwrap().terms().unwrap();
    assert_eq!(t, ColorfulnessTerms { spread: 150000, center: 50000, scale: 8 });
    assert!((score(&t) - 56.7975).abs() < 1e-3);

    let rgb = vec![plane(r), plane(g), plane(b)];
    let s = colorfulness_moments(&rgb).unwrap().terms().unwrap();
    assert_eq!(s, ColorfulnessTerms { spread: 120000, center: 40000, scale: 8 });
    assert!((score(&s) - 50.8013).abs() < 1e-3);
    assert!((score(&t) - score(&s)).abs() > 1.0);
}

#[test]
fn moments_of_mixed_pixels() {
    let bgr = vec![plane(vec![10, 20, 30, 40]), plane(vec![50, 60, 70, 80]), plane(vec![90, 100, 110, 125])];
    let m = colorfulness_moments(&bgr).unwrap();
    // rg = 40, 40, 40, 45 and r + g - 2b = 120, 120, 120, 125
    assert_eq!(m, ColorMoments { pixels: 4, rg: 165, rg_sq: 6825, yb: 485, yb_sq: 58825 });
    let t = m.terms().unwrap();
    assert_eq!(t.spread, 4 * (4 * 6825 - 165 * 165) + (4 * 58825 - 485 * 485));
    assert_eq!(t.center, 4 * 165 * 165 + 485 * 485);
}

#[test]
fn fewer_than_three_planes_is_an_input_error() {
    let planes = vec![plane(vec![1, 2, 3, 4]), plane(vec![1, 2, 3, 4])];
    let e = colorfulness_moments(&planes).unwrap_err();
    assert!(e.is_input(InputError::MissingPlanes));
    assert!(colorfulness_moments(&vec![]).unwrap_err().is_input(InputError::MissingPlanes));
}

#[test]
fn planes_of_different_sizes_are_an_input_error() {
    let odd = Plane::new(4, 1, vec![1, 2, 3, 4]).unwrap();
    let planes = vec![plane(vec![1, 2, 3, 4]), plane(vec![1, 2, 3, 4]), odd];
    let e = colorfulness_moments(&planes).unwrap_err();
    assert!(e.is_input(InputError::SizeMismatch));
    let broken = Plane { width: 2, height: 2, data: vec![1, 2, 3] };
    let planes = vec![plane(vec![1, 2, 3, 4]), plane(vec![1, 2, 3, 4]), broken];
    assert!(matches!(
        colorfulness_moments(&planes),
        Err(ProcessError::Input(InputError::SizeMismatch))
    ));
}

#[test]
fn extra_planes_are_ignored() {
    let planes = vec![plane(vec![0; 4]), plane(vec![0; 4]), plane(vec![4; 4]), plane(vec![9; 4])];
    let m = colorfulness_moments(&planes).unwrap();
    assert_eq!(m, ColorMoments { pixels: 4, rg: 16, rg_sq: 64, yb: 16, yb_sq: 64 });
}

#[test]
fn empty_image_has_no_terms() {
    let empty = Plane::new(0, 0, vec![]).unwrap();
    let planes = vec![empty.clone(), empty.clone(), empty];
    let m = colorfulness_moments(&planes).unwrap();
    assert_eq!(m.pixels, 0);
    assert_eq!(m.terms(), None);
}

#[test]
fn impossible_sums_have_no_terms() {
    let m = ColorMoments { pixels: 1, rg: 300, rg_sq: 90000, yb: 0, yb_sq: 0 };
    assert_eq!(m.terms(), None);
}

#[test]
fn plane_order_changes_colorfulness_of_flat_planes() {
    let (b, g, r) = (vec![10; 4], vec![20; 4], vec![60; 4]);
    let bgr = vec![plane(b.clone()), plane(g.clone()), plane(r.clone())];
    let t = colorfulness_moments(&bgr).unwrap().terms().unwrap();
    assert_eq!(t, ColorfulnessTerms { spread: 0, center: 160000, scale: 8 });
    assert!((score(&t) - 15.0).abs() < 1e-9);

    let rgb = vec![plane(r.clone()), plane(g.clone()), plane(b.clone())];
    let s = colorfulness_moments(&rgb).unwrap().terms().unwrap();
    assert_eq!(s, ColorfulnessTerms { spread: 0, center: 136000, scale: 8 });
    assert!((score(&s) - 0.3 * 2125f64.sqrt()).abs() < 1e-6);

    let gbr = vec![plane(g), plane(b), plane(r)];
    let u = colorfulness_moments(&gbr).unwrap().terms().unwrap();
    assert_eq!(u, ColorfulnessTerms { spread: 0, center: 174400, scale: 8 });
    assert!((score(&u) - 0.3 * 2725f64.sqrt()).abs() < 1e-6);
}

#[test]
fn negative_variance_sums_have_no_terms() {
    let m = ColorMoments { pixels: 2, rg: 510, rg_sq: 0, yb: 0, yb_sq: 0 };
    assert_eq!(m.terms(), None);
}
