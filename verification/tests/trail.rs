use hagoromo::{Point, Trail, Vec2};

fn hseg(length: f64) -> Trail {
    Trail::from_segments(vec![Vec2::new(length, 0.0)])
}

fn vseg(length: f64) -> Trail {
    Trail::from_segments(vec![Vec2::new(0.0, length)])
}

fn close(a: f64, b: f64) -> bool {
    (a - b).abs() <= 1e-12
}

#[test]
fn empty_trail_has_no_segments() {
    assert_eq!(Trail::empty().len(), 0);
}

#[test]
fn concatenation_appends_segments() {
    let t = hseg(1.0) + vseg(1.0) + hseg(-1.0);
    assert_eq!(t.len(), 3);
}

#[test]
fn empty_is_identity_for_add() {
    let t = hseg(1.0);
    let left = Trail::empty() + t.clone();
    let right = t.clone() + Trail::empty();
    assert_eq!(left.len(), 1);
    assert_eq!(right.len(), 1);
}

#[test]
fn to_points_accumulates_correctly() {
    let t = hseg(1.0) + vseg(1.0);
    let pts = t.to_points(Point::ORIGIN);
    assert_eq!(pts.len(), 3);
    assert!(close(pts[0].x, 0.0));
    assert!(close(pts[0].y, 0.0));
    assert!(close(pts[1].x, 1.0));
    assert!(close(pts[1].y, 0.0));
    assert!(close(pts[2].x, 1.0));
    assert!(close(pts[2].y, 1.0));
}

#[test]
fn hilbert_1_has_three_segments() {
    let h1 = vseg(1.0) + hseg(1.0) + vseg(-1.0);
    assert_eq!(h1.len(), 3);
}

#[test]
fn default_trail_is_empty() {
    let t = Trail::default();
    assert!(t.is_empty());
    assert_eq!(t.segments().len(), 0);
}

#[test]
fn concatenation_keeps_segment_order() {
    let t = hseg(1.0) + vseg(2.0) + hseg(3.0);
    let s = t.segments();
    assert_eq!(s[0], Vec2::new(1.0, 0.0));
    assert_eq!(s[1], Vec2::new(0.0, 2.0));
    assert_eq!(s[2], Vec2::new(3.0, 0.0));
    assert!(!t.is_empty());
}

#[test]
fn add_assign_appends() {
    let mut t = hseg(1.0);
    t += vseg(2.0);
    assert_eq!(t.len(), 2);
    assert_eq!(t.segments()[1], Vec2::new(0.0, 2.0));
}

#[test]
fn concatenation_is_associative_on_segments() {
    let a = hseg(1.0);
    let b = vseg(2.0);
    let c = hseg(-3.0);
    let left = (a.clone() + b.clone()) + c.clone();
    let right = a + (b + c);
    assert_eq!(left.segments(), right.segments());
}

#[test]
fn to_points_of_empty_trail_is_start() {
    let pts = Trail::empty().to_points(Point::new(2.0, 3.0));
    assert_eq!(pts, vec![Point::new(2.0, 3.0)]);
}

#[test]
fn to_points_starts_elsewhere() {
    let pts = (hseg(2.0) + vseg(-1.0)).to_points(Point::new(1.0, 1.0));
    assert_eq!(pts, vec![Point::new(1.0, 1.0), Point::new(3.0, 1.0), Point::new(3.0, 0.0)]);
}

#[test]
fn points_of_concatenation_continue_from_the_end() {
    let a = hseg(1.0) + vseg(2.0);
    let b = hseg(-4.0) + vseg(1.0);
    let start = Point::new(0.5, 0.5);
    let whole = (a.clone() + b.clone()).to_points(start);
    let first = a.to_points(start);
    let second = b.to_points(*first.last().unwrap());
    let mut expected = first.clone();
    expected.extend_from_slice(&second[1..]);
    assert_eq!(whole, expected);
}

#[test]
fn total_displacement_sums_segments() {
    let t = hseg(1.0) + vseg(2.0) + hseg(3.0);
    assert_eq!(t.total_displacement(), Vec2::new(4.0, 2.0));
    assert_eq!(Trail::empty().total_displacement(), Vec2::ZERO);
}

#[test]
fn total_displacement_from_starts_at_given_vector() {
    let t = hseg(1.0) + vseg(2.0) + hseg(3.0);
    assert_eq!(t.total_displacement_from(Vec2::new(10.0, -1.0)), Vec2::new(14.0, 1.0));
    assert_eq!(Trail::empty().total_displacement_from(Vec2::new(5.0, 6.0)), Vec2::new(5.0, 6.0));
}
