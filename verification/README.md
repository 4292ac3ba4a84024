# hagoromo

A declarative vector graphics library in the style of Haskell's `diagrams`,
with its core verified by Verus.

- `src/` — the verified library:
  - `geom.rs`: the kurbo geometry the crate carries, and the kurbo operations
    it calls, each with a relation between its arguments and its results so
    that contracts can speak of what it gave;
  - `trail.rs`: trails (sequences of segments) and their monoid, points along
    a trail, total displacement;
  - `envelope.rs`: axis-aligned bounding boxes: union, moving, tight boxes;
  - `style.rs`: styles as partial attribute records and their merging;
  - `diagram.rs`: the scene tree, superimposition (a monoid over what is
    drawn), styling, moving, stroking a trail;
  - `combinators.rs`: `atop` and `position`;
  - `color.rs`: `#rrggbb` colour strings and parsing of CSS hex colours;
  - `svg.rs`: the SVG backend: points of the scene, drawing steps with
    resolved styles, and the assembly of the markup.
- `app/` — the floating-point layer: colours, widths, shapes, reflections and
  rotations, layout by envelopes (`beside`, `hcat`, ...), cubic splines, the
  number formatting of the SVG backend, and serde copies of trails and boxes.
- `tests/` — tests of the library.
