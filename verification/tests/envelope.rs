use hagoromo::{BoundingBox, Point, Rect, Vec2};

#[test]
fn union_of_empty_is_empty() {
    assert_eq!(BoundingBox::empty().union(BoundingBox::empty()), BoundingBox::empty());
}

#[test]
fn union_with_empty_is_identity() {
    let bb = BoundingBox::from_rect(Rect::new(0.0, 0.0, 1.0, 1.0));
    assert_eq!(bb.union(BoundingBox::empty()), bb);
    assert_eq!(BoundingBox::empty().union(bb), bb);
}

#[test]
fn translate_shifts_rect() {
    let bb = BoundingBox::from_rect(Rect::new(0.0, 0.0, 2.0, 2.0));
    let shifted = bb.translate(Vec2::new(3.0, 4.0));
    let r = shifted.rect().unwrap();
    assert!((r.x0 - 3.0).abs() <= 1e-12);
    assert!((r.y0 - 4.0).abs() <= 1e-12);
}

#[test]
fn union_encloses_both_boxes() {
    let a = BoundingBox::from_rect(Rect::new(0.0, 0.0, 1.0, 1.0));
    let b = BoundingBox::from_rect(Rect::new(-2.0, 0.5, 0.5, 3.0));
    assert_eq!(a.union(b).rect(), Some(Rect::new(-2.0, 0.0, 1.0, 3.0)));
}

#[test]
fn translate_empty_is_empty() {
    assert_eq!(BoundingBox::empty().translate(Vec2::new(1.0, 1.0)).rect(), None);
}

#[test]
fn from_points_of_nothing_is_empty() {
    assert_eq!(BoundingBox::from_points(&[]).rect(), None);
}

#[test]
fn from_points_is_tight() {
    let pts = [Point::new(1.0, 2.0), Point::new(-1.0, 5.0), Point::new(3.0, -4.0)];
    assert_eq!(BoundingBox::from_points(&pts).rect(), Some(Rect::new(-1.0, -4.0, 3.0, 5.0)));
}

#[test]
fn from_single_point_is_zero_area() {
    let r = BoundingBox::from_points(&[Point::new(2.0, 7.0)]).rect().unwrap();
    assert_eq!(r, Rect::new(2.0, 7.0, 2.0, 7.0));
    assert_eq!(r.width(), 0.0);
}
