use hagoromo::Style;

type Rgba = (f32, f32, f32, f32);
type TestStyle = Style<Rgba, f64, Vec<f64>, String>;

const BLACK: Rgba = (0.0, 0.0, 0.0, 1.0);
const RED: Rgba = (1.0, 0.0, 0.0, 1.0);

#[test]
fn merge_inner_wins() {
    let outer: TestStyle = Style { stroke_color: Some(BLACK), stroke_width: Some(1.0), ..Default::default() };
    let inner: TestStyle = Style { stroke_color: Some(RED), ..Default::default() };
    let merged = outer.merge_over(&inner);
    assert_eq!(merged.stroke_color, Some(RED));
    assert_eq!(merged.stroke_width, Some(1.0));
}

#[test]
fn merge_over_default_keeps_inner() {
    let inner: TestStyle = Style {
        fill_color: Some(RED),
        opacity: Some(0.5),
        dash: Some(vec![1.0, 2.0]),
        bold: Some(true),
        font_family: Some("serif".to_string()),
        ..Default::default()
    };
    let merged = TestStyle::default().merge_over(&inner);
    assert_eq!(merged.fill_color, Some(RED));
    assert_eq!(merged.opacity, Some(0.5));
    assert_eq!(merged.dash, Some(vec![1.0, 2.0]));
    assert_eq!(merged.bold, Some(true));
    assert_eq!(merged.font_family.as_deref(), Some("serif"));
    assert_eq!(merged.stroke_color, None);
    assert_eq!(merged.fill_gradient, None);
}

#[test]
fn merge_default_over_anything_keeps_outer() {
    let outer: TestStyle = Style {
        stroke_color: Some(BLACK),
        fill_gradient: Some("radial".to_string()),
        ..Default::default()
    };
    let merged = outer.merge_over(&TestStyle::default());
    assert_eq!(merged.stroke_color, Some(BLACK));
    assert_eq!(merged.fill_gradient.as_deref(), Some("radial"));
    assert_eq!(merged.stroke_width, None);
}

#[test]
fn merge_is_associative_on_fields() {
    let a: TestStyle = Style { stroke_color: Some(BLACK), stroke_width: Some(1.0), bold: Some(false), ..Default::default() };
    let b: TestStyle = Style { stroke_color: Some(RED), dash: Some(vec![3.0]), ..Default::default() };
    let c: TestStyle = Style { stroke_width: Some(2.0), ..Default::default() };
    let left = a.merge_over(&b).merge_over(&c);
    let right = a.merge_over(&b.merge_over(&c));
    assert_eq!(left.stroke_color, right.stroke_color);
    assert_eq!(left.stroke_width, Some(2.0));
    assert_eq!(right.stroke_width, Some(2.0));
    assert_eq!(left.dash, right.dash);
    assert_eq!(left.bold, right.bold);
}
