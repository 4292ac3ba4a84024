//! Hagoromo: a declarative vector graphics library, inspired by the Haskell
//! `diagrams` package.
//!
//! This crate holds the verified core: trails as sequences of segments, the
//! scene tree of diagrams and its monoid structure, the merging of styles,
//! axis-aligned envelopes, colour hex codes, and the SVG backend's traversal
//! of the scene and assembly of markup. Coordinates are `kurbo` values, and
//! the arithmetic on them is kurbo's.

pub mod geom;
pub mod trail;
pub mod color;
pub mod envelope;
pub mod style;
pub mod diagram;
pub mod svg;
pub mod combinators;

pub use kurbo::{Point, Rect, Vec2};
pub use trail::Trail;
pub use style::Style;
pub use diagram::{Diagram, DiagramNode, stroke_trail, stroke_trail_at};
pub use envelope::BoundingBox;
pub use combinators::{atop, position};
pub use color::{hex_color_string, hex_rgb_bytes, svg_color_string};
pub use svg::{SvgBackend, SvgError, DrawItem, collect_points, draw_items, polyline_element, svg_document};
