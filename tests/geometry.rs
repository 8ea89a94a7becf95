use smashbing::rect::Rect;
use smashbing::vec::Vec2;

#[test]
fn test_contains() {
    let r = Rect::new(1000, 2000, 1000, 2000);
    assert!(r.contains(Vec2::new(1500, 1500)));
}

#[test]
fn test_translate() {
    let mut r = Rect::new(1000, 2000, 1000, 2000);
    r.translate(1000, 0);
    assert_eq!(r, Rect::new(2000, 3000, 1000, 2000));
    r.translate(0, 1000);
    assert_eq!(r, Rect::new(2000, 3000, 2000, 3000));
    r.translate(-1000, -1000);
    assert_eq!(r, Rect::new(1000, 2000, 1000, 2000));
}

#[test]
fn test_translated() {
    let orig = Rect::new(1000, 2000, 1000, 2000);
    let translated = orig.translated(1000, 1000);
    assert_eq!(translated, Rect::new(2000, 3000, 2000, 3000));
    assert_eq!(orig, Rect::new(1000, 2000, 1000, 2000));
}

#[test]
fn test_center_x() {
    let r1 = Rect::new(0, 2000, 0, 2000);
    assert_eq!(r1.center(), Vec2::new(1000, 1000));
}

#[test]
fn test_vec_magnitude() {
    assert_eq!(Vec2::new(1000, 0).magnitude(), 1000);
    assert_eq!(Vec2::new(0, 1000).magnitude(), 1000);
    assert_eq!(Vec2::new(1000, 2000).magnitude(), ((5.0f64).sqrt() * 1000.0) as u64);
}

// Angles are in milliradians; a quarter turn is 1571.
#[test]
fn test_vec_rotate() {
    let mut v = Vec2::new(1000, 0);
    v.rotate(1571);
    assert!(v.sub(Vec2::new(0, 1000)).magnitude() < 1);
    v.rotate(-1571);
    assert!(v.sub(Vec2::new(1000, 0)).magnitude() < 1);
    v.rotate(785);
    let sqrt2 = ((2.0f64).sqrt() * 0.5 * 1000.0) as i64;
    // Within one thousandth of a unit, the resolution of the fixed point.
    assert!(
        v.sub(Vec2::new(sqrt2, sqrt2)).magnitude() < 2,
        "got: {:?}, want: {:?}",
        v,
        Vec2::new(sqrt2, sqrt2)
    );
}

#[test]
fn test_vec_scaled() {
    let orig = Vec2::new(1000, 1000);
    let scaled = orig.scaled(2000);
    assert_eq!(orig, Vec2::new(1000, 1000));
    assert_eq!(scaled, Vec2::new(2000, 2000));
}

#[test]
fn test_moving() {
    let mut p = Vec2::new(0, 0);
    p.add_assign(Vec2::new(1000, 1000));
    assert_eq!(p, Vec2::new(1000, 1000));
    p.add_assign(Vec2::new(1000, 1000));
    assert_eq!(p, Vec2::new(2000, 2000));
    p.add_assign(Vec2::new(-2000, 0));
    assert_eq!(p, Vec2::new(0, 2000));
    p.sub_assign(Vec2::new(1000, 1000));
    assert_eq!(p, Vec2::new(-1000, 1000));
}

#[test]
fn test_vec_scale() {
    let mut v = Vec2::new(1000, 2000);
    v.scale(1000);
    assert_eq!(v, Vec2::new(1000, 2000));
    v.scale(2000);
    assert_eq!(v, Vec2::new(2000, 4000));
    v.scale(-3000);
    assert_eq!(v, Vec2::new(-6000, -12000));
}

// A unit is 1000; normalising rounds to within three thousandths of it.
#[test]
fn test_normalizing() {
    const THRESHOLD: i64 = 3;
    let mut v1 = Vec2::new(1000, 2000);
    v1.normalise();
    assert!((v1.magnitude() as i64 - 1000).abs() <= THRESHOLD);
    let v2 = Vec2::new(2000, 1000);
    let v3 = v2.normalised();
    assert_eq!(v2, Vec2::new(2000, 1000));
    assert!((v3.magnitude() as i64 - 1000).abs() <= THRESHOLD);
}

#[test]
fn containment_edges_are_inclusive() {
    let r = Rect::new(1000, 2000, 1000, 2000);
    assert!(r.contains(Vec2::new(1500, 1500)));
    assert!(r.contains(Vec2::new(2000, 2000)));
    assert!(r.contains(Vec2::new(1000, 1000)));
    assert!(!r.contains(Vec2::new(2100, 1500)));
    assert!(!r.contains(Vec2::new(1500, 999)));
}

#[test]
fn translate_round_trip_restores_rectangle() {
    let orig = Rect::new(-3000, 4500, 200, 9100);
    let mut r = orig;
    r.translate(12345, -678);
    assert_ne!(r, orig);
    r.translate(-12345, 678);
    assert_eq!(r, orig);
    assert_eq!(orig.translated(7, 9).translated(-7, -9), orig);
}

#[test]
fn center_rounds_toward_zero() {
    assert_eq!(Rect::new(0, 3, -3, 0).center(), Vec2::new(1, -1));
    assert_eq!(Rect::new(8000, 16000, 16000, 21000).center(), Vec2::new(12000, 18500));
}

#[test]
fn rotation_round_trip_and_length() {
    let mut v = Vec2::new(1000, 0);
    v.rotate(1571);
    v.rotate(-1571);
    assert_eq!(v, Vec2::new(1000, 0));
    let mut w = Vec2::new(3000, 4000);
    w.rotate(400);
    assert!((w.magnitude() as i64 - 5000).abs() <= 2);
    let mut h = Vec2::new(1000, 0);
    h.rotate(3142);
    assert!(h.sub(Vec2::new(-1000, 0)).magnitude() < 2);
}

#[test]
fn normalising_zero_leaves_zero() {
    let mut z = Vec2::new(0, 0);
    z.normalise();
    assert_eq!(z, Vec2::new(0, 0));
    assert_eq!(Vec2::new(0, -5).normalised(), Vec2::new(0, -1000));
}

#[test]
fn normalised_is_unit_length() {
    for &(x, y) in &[(1, 1), (3, -4), (-70000, 2), (123456789, -987654), (-1, 0)] {
        let m = Vec2::new(x, y).normalised().magnitude() as i64;
        assert!((997..=1000).contains(&m), "{} {} -> {}", x, y, m);
    }
}

#[test]
fn add_and_sub_are_componentwise() {
    assert_eq!(Vec2::new(1, 2).add(Vec2::new(10, 20)), Vec2::new(11, 22));
    assert_eq!(Vec2::new(1, 2).sub(Vec2::new(10, 20)), Vec2::new(-9, -18));
}

#[test]
fn scaling_rounds_toward_zero() {
    assert_eq!(Vec2::new(-5, 5).scaled(500), Vec2::new(-2, 2));
}
