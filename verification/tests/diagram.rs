use std::sync::Arc;

use hagoromo::{atop, position, stroke_trail, stroke_trail_at, BoundingBox, Diagram, DiagramNode, Point, Rect, Style, Trail, Vec2};

type Rgba = (f32, f32, f32, f32);
type TestStyle = Style<Rgba, f64, Vec<f64>, String>;
type TestDiagram = Diagram<TestStyle, &'static str>;

const RED: Rgba = (1.0, 0.0, 0.0, 1.0);

fn hseg(length: f64) -> Trail {
    Trail::from_segments(vec![Vec2::new(length, 0.0)])
}

fn shape(name: &'static str, r: Rect) -> TestDiagram {
    Diagram::from_node(DiagramNode::Shape(name), BoundingBox::from_rect(r))
}

fn group_len(d: &TestDiagram) -> usize {
    match d.node() {
        DiagramNode::Group(ch) => ch.len(),
        _ => panic!("expected a group"),
    }
}

#[test]
fn empty_plus_diagram_is_diagram() {
    let d: TestDiagram = stroke_trail(hseg(1.0));
    let combined = Diagram::empty() + d;
    assert!(!matches!(combined.node(), DiagramNode::Empty));
}

#[test]
fn style_chaining_wraps_node() {
    let d: TestDiagram = stroke_trail(hseg(1.0))
        .styled(Style { stroke_color: Some(RED), ..Default::default() })
        .styled(Style { opacity: Some(0.5), ..Default::default() });
    assert!(matches!(d.node(), DiagramNode::Styled { .. }));
}

#[test]
fn superimposition_flattens_groups_and_drops_empty() {
    let a = shape("a", Rect::new(0.0, 0.0, 1.0, 1.0));
    let b = shape("b", Rect::new(0.0, 0.0, 1.0, 1.0));
    let c = shape("c", Rect::new(0.0, 0.0, 1.0, 1.0));
    let ab = a + b;
    assert_eq!(group_len(&ab), 2);
    let abc = ab + Diagram::empty() + c;
    assert_eq!(group_len(&abc), 3);
    match abc.node() {
        DiagramNode::Group(ch) => {
            let names: Vec<&str> = ch
                .iter()
                .map(|n| match n.as_ref() {
                    DiagramNode::Shape(s) => *s,
                    _ => "?",
                })
                .collect();
            assert_eq!(names, vec!["a", "b", "c"]);
        }
        _ => panic!("expected a group"),
    }
}

#[test]
fn superimposition_unions_envelopes() {
    let a = shape("a", Rect::new(0.0, 0.0, 1.0, 1.0));
    let b = shape("b", Rect::new(-1.0, 2.0, 0.5, 3.0));
    let d = atop(a, b);
    assert_eq!(d.bbox().rect(), Some(Rect::new(-1.0, 0.0, 1.0, 3.0)));
    let e: TestDiagram = Diagram::default();
    assert_eq!(e.bbox().rect(), None);
    assert!(matches!(e.node(), DiagramNode::Empty));
}

#[test]
fn stroke_trail_starts_at_origin_with_tight_envelope() {
    let d: TestDiagram = stroke_trail(hseg(3.0) + Trail::from_segments(vec![Vec2::new(0.0, -2.0)]));
    match d.node() {
        DiagramNode::StrokedTrail { trail, start } => {
            assert_eq!(*start, Point::ORIGIN);
            assert_eq!(trail.len(), 2);
        }
        _ => panic!("expected a stroked trail"),
    }
    assert_eq!(d.bbox().rect(), Some(Rect::new(0.0, -2.0, 3.0, 0.0)));
}

#[test]
fn stroke_trail_at_starts_at_given_point() {
    let d: TestDiagram = stroke_trail_at(hseg(3.0) + Trail::from_segments(vec![Vec2::new(0.0, -2.0)]), Point::new(1.0, 1.0));
    match d.node() {
        DiagramNode::StrokedTrail { trail, start } => {
            assert_eq!(*start, Point::new(1.0, 1.0));
            assert_eq!(trail.len(), 2);
        }
        _ => panic!("expected a stroked trail"),
    }
    assert_eq!(d.bbox().rect(), Some(Rect::new(1.0, -1.0, 4.0, 1.0)));
}

#[test]
fn translate_by_moves_envelope() {
    let d = shape("a", Rect::new(-1.0, -1.0, 1.0, 1.0)).translate_by(Vec2::new(2.0, 3.0));
    assert_eq!(d.bbox().rect(), Some(Rect::new(1.0, 2.0, 3.0, 4.0)));
    assert!(matches!(d.node(), DiagramNode::Translated { .. }));
}

#[test]
fn position_places_each_diagram() {
    let items = vec![
        (Point::new(1.0, 0.0), shape("a", Rect::new(-1.0, -1.0, 1.0, 1.0))),
        (Point::new(0.0, 5.0), shape("b", Rect::new(-1.0, -1.0, 1.0, 1.0))),
    ];
    let d = position(items);
    assert_eq!(d.bbox().rect(), Some(Rect::new(-1.0, -1.0, 2.0, 6.0)));
    match d.node() {
        DiagramNode::Group(ch) => {
            assert_eq!(ch.len(), 2);
            match ch[1].as_ref() {
                DiagramNode::Translated { offset, child } => {
                    assert_eq!(*offset, Vec2::new(0.0, 5.0));
                    assert!(matches!(child.as_ref(), DiagramNode::Shape("b")));
                }
                _ => panic!("expected a moved node"),
            }
        }
        _ => panic!("expected a group"),
    }
}

#[test]
fn position_of_nothing_is_empty() {
    let d: TestDiagram = position(Vec::new());
    assert!(matches!(d.node(), DiagramNode::Empty));
    assert_eq!(d.bbox().rect(), None);
}

#[test]
fn from_node_keeps_node_and_envelope() {
    let node: DiagramNode<TestStyle, &'static str> = DiagramNode::Group(vec![Arc::new(DiagramNode::Shape("x"))]);
    let d = Diagram::from_node(node, BoundingBox::empty());
    assert_eq!(group_len(&d), 1);
    assert_eq!(d.bbox(), BoundingBox::empty());
}

#[test]
fn style_setters_set_one_attribute_each() {
    let base = || shape("a", Rect::new(-1.0, -1.0, 1.0, 1.0));
    let check = |d: TestDiagram, f: &dyn Fn(&TestStyle) -> bool| {
        assert_eq!(d.bbox().rect(), Some(Rect::new(-1.0, -1.0, 1.0, 1.0)));
        match d.node() {
            DiagramNode::Styled { style, child } => {
                assert!(f(style));
                assert!(matches!(**child, DiagramNode::Shape("a")));
            }
            _ => panic!("expected a styled node"),
        }
    };
    let only = |s: &TestStyle| s.dash.is_none() && s.bold.is_none() && s.fill_gradient.is_none() && s.font_family.is_none();
    check(base().lc(RED), &|s| s.stroke_color == Some(RED) && s.fill_color.is_none() && s.stroke_width.is_none() && s.opacity.is_none() && only(s));
    check(base().stroke_color(RED), &|s| s.stroke_color == Some(RED) && s.fill_color.is_none() && only(s));
    check(base().fc(RED), &|s| s.fill_color == Some(RED) && s.stroke_color.is_none() && s.stroke_width.is_none() && only(s));
    check(base().fill_color(RED), &|s| s.fill_color == Some(RED) && s.stroke_color.is_none() && only(s));
    check(base().lw(2.5), &|s| s.stroke_width == Some(2.5) && s.opacity.is_none() && s.fill_color.is_none() && only(s));
    check(base().stroke_width(2.5), &|s| s.stroke_width == Some(2.5) && s.opacity.is_none() && only(s));
    check(base().opacity(0.5), &|s| s.opacity == Some(0.5) && s.stroke_width.is_none() && s.stroke_color.is_none() && only(s));
}
