use hagoromo::{
    collect_points, draw_items, polyline_element, stroke_trail, svg_color_string, svg_document, Diagram,
    DiagramNode, BoundingBox, DrawItem, Point, Style, SvgBackend, SvgError, Trail, Vec2,
};

type Rgba = (f32, f32, f32, f32);
type TestStyle = Style<Rgba, f64, Vec<f64>, String>;
type TestDiagram = Diagram<TestStyle, &'static str>;

const BLACK: Rgba = (0.0, 0.0, 0.0, 1.0);
const SILVER: Rgba = (0.753, 0.753, 0.753, 1.0);
const RED: Rgba = (1.0, 0.0, 0.0, 1.0);

fn byte(c: f32) -> u8 {
    (c * 255.0).round() as u8
}

fn color_text(c: Rgba) -> String {
    svg_color_string(c.3 == 0.0, byte(c.0), byte(c.1), byte(c.2))
}

fn hseg(length: f64) -> Trail {
    Trail::from_segments(vec![Vec2::new(length, 0.0)])
}

fn render(d: &TestDiagram) -> String {
    let pts = collect_points(d);
    let (vx, vy, vw, vh) = if pts.is_empty() {
        (0.0, 0.0, 100.0, 100.0)
    } else {
        let min_x = pts.iter().map(|p| p.x).fold(f64::INFINITY, f64::min);
        let min_y = pts.iter().map(|p| p.y).fold(f64::INFINITY, f64::min);
        let max_x = pts.iter().map(|p| p.x).fold(f64::NEG_INFINITY, f64::max);
        let max_y = pts.iter().map(|p| p.y).fold(f64::NEG_INFINITY, f64::max);
        let pad = 2.0;
        (min_x - pad, min_y - pad, (max_x - min_x) + 2.0 * pad, (max_y - min_y) + 2.0 * pad)
    };
    let base: TestStyle = Style { stroke_color: Some(BLACK), stroke_width: Some(0.5), ..Default::default() };
    let mut elements = Vec::new();
    for item in draw_items(d, &base) {
        if let DrawItem::Polyline { points, style } = item {
            let pts: Vec<String> = points.iter().map(|p| format!("{:.6},{:.6}", p.x, p.y)).collect();
            let fill = style.fill_color.map(color_text);
            let stroke = style.stroke_color.map(color_text);
            let width = format!("{:.6}", style.stroke_width.unwrap_or(1.0));
            let opacity = style.opacity.map(|o| format!("{:.6}", o));
            elements.push(polyline_element(&pts, fill.as_deref(), stroke.as_deref(), &width, opacity.as_deref()));
        }
    }
    svg_document(
        &format!("{:.4}", vx),
        &format!("{:.4}", vy),
        &format!("{:.4}", vw),
        &format!("{:.4}", vh),
        None,
        &elements,
    )
}

#[test]
fn rendered_line_has_svg_markup() {
    let d: TestDiagram = stroke_trail(hseg(10.0)).styled(Style { stroke_color: Some(SILVER), ..Default::default() });
    let svg = render(&d);
    assert!(svg.contains("<svg"));
    assert!(svg.contains("<polyline"));
    assert!(svg.contains("</svg>"));
    assert!(svg.contains("viewBox="));
    assert!(svg.contains("stroke=\"#c0c0c0\""));
}

#[test]
fn rendered_line_exact_text() {
    let d: TestDiagram = stroke_trail(hseg(10.0));
    let svg = render(&d);
    assert_eq!(
        svg,
        "<svg xmlns=\"http://www.w3.org/2000/svg\" viewBox=\"-2.0000 -2.0000 14.0000 4.0000\">\n  <polyline points=\"0.000000,0.000000 10.000000,0.000000\" fill=\"none\" stroke=\"#000000\" stroke-width=\"0.500000\" />\n</svg>\n"
    );
}

#[test]
fn svg_document_with_background() {
    let doc = svg_document("0", "1", "2", "3", Some("#ffffff"), &["<a/>\n".to_string(), "<b/>\n".to_string()]);
    assert_eq!(
        doc,
        "<svg xmlns=\"http://www.w3.org/2000/svg\" viewBox=\"0 1 2 3\">\n  <rect x=\"0\" y=\"1\" width=\"2\" height=\"3\" fill=\"#ffffff\" />\n<a/>\n<b/>\n</svg>\n"
    );
}

#[test]
fn polyline_element_with_opacity() {
    let line = polyline_element(&["1,2".to_string(), "3,4".to_string()], Some("#ff0000"), None, "1", Some("0.5"));
    assert_eq!(line, "  <polyline points=\"1,2 3,4\" fill=\"#ff0000\" stroke=\"none\" stroke-width=\"1\" opacity=\"0.5\" />\n");
}

#[test]
fn inner_style_wins_when_drawing() {
    let d: TestDiagram = stroke_trail(hseg(1.0))
        .styled(Style { stroke_color: Some(RED), ..Default::default() })
        .styled(Style { stroke_color: Some(SILVER), opacity: Some(0.3), ..Default::default() });
    let base: TestStyle = Style { stroke_color: Some(BLACK), stroke_width: Some(0.5), ..Default::default() };
    let items = draw_items(&d, &base);
    assert_eq!(items.len(), 1);
    match &items[0] {
        DrawItem::Polyline { points, style } => {
            assert_eq!(points, &vec![Point::new(0.0, 0.0), Point::new(1.0, 0.0)]);
            assert_eq!(style.stroke_color, Some(RED));
            assert_eq!(style.opacity, Some(0.3));
            assert_eq!(style.stroke_width, Some(0.5));
        }
        _ => panic!("expected a polyline"),
    }
}

#[test]
fn empty_trails_draw_nothing_but_count_their_start() {
    let d: TestDiagram = stroke_trail(Trail::empty());
    let base: TestStyle = Style::default();
    assert_eq!(draw_items(&d, &base).len(), 0);
    assert_eq!(collect_points(&d), vec![Point::ORIGIN]);
}

#[test]
fn moves_shift_points_and_shapes() {
    let line: TestDiagram = stroke_trail(hseg(1.0)).translate_by(Vec2::new(0.0, 2.0));
    let dot: TestDiagram = Diagram::from_node(DiagramNode::Shape("dot"), BoundingBox::empty())
        .translate_by(Vec2::new(1.0, 1.0))
        .translate_by(Vec2::new(2.0, 0.0));
    let d = line + dot;
    assert_eq!(collect_points(&d), vec![Point::new(0.0, 2.0), Point::new(1.0, 2.0)]);
    let base: TestStyle = Style::default();
    let items = draw_items(&d, &base);
    assert_eq!(items.len(), 2);
    match &items[1] {
        DrawItem::Shape { shape, offset, .. } => {
            assert_eq!(**shape, "dot");
            assert_eq!(*offset, Some(Vec2::new(3.0, 1.0)));
        }
        _ => panic!("expected a shape"),
    }
}

#[test]
fn superimposition_draws_back_to_front() {
    let a: TestDiagram = stroke_trail(hseg(1.0));
    let b: TestDiagram = stroke_trail(hseg(2.0)).styled(Style { stroke_color: Some(RED), ..Default::default() });
    let base: TestStyle = Style::default();
    let d = a + b;
    let items = draw_items(&d, &base);
    assert_eq!(items.len(), 2);
    match (&items[0], &items[1]) {
        (DrawItem::Polyline { points: p0, style: s0 }, DrawItem::Polyline { points: p1, style: s1 }) => {
            assert_eq!(p0[1], Point::new(1.0, 0.0));
            assert_eq!(p1[1], Point::new(2.0, 0.0));
            assert_eq!(s0.stroke_color, None);
            assert_eq!(s1.stroke_color, Some(RED));
        }
        _ => panic!("expected polylines"),
    }
}

#[test]
fn svg_backend_and_error() {
    let _b = SvgBackend::new();
    let _d = SvgBackend::default();
    let e = SvgError("bad".to_string());
    assert_eq!(e.describe(), "SVG render error: bad");
}
