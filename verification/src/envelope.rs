//! [`BoundingBox`]: the axis-aligned bounding box used as a diagram's
//! envelope.
//!
//! It approximates the functional envelopes of Haskell's `diagrams`: enough
//! for the layout of axis-aligned compositions.

use vstd::prelude::*;

use kurbo::{Point, Rect, Vec2};
use crate::geom::{
    displace_rect, is_rect_at_point, is_rect_displaced, is_rect_union, is_rect_union_point,
    rect_from_point, union_rect_point, union_rects,
};

verus! {

/// An axis-aligned bounding box in local diagram coordinates. `None` is the
/// empty envelope: no spatial extent, as of an empty diagram.
#[derive(Clone, Copy, Debug, PartialEq)]
pub struct BoundingBox(Option<Rect>);

impl View for BoundingBox {
    type V = Option<Rect>;

    open spec fn view(&self) -> Option<Rect> {
        self.spec_rect()
    }
}

/// `r` is the union of two envelopes: the empty one adds nothing, and two
/// boxes give an outcome of kurbo's union of the two.
pub open spec fn is_union_of(a: Option<Rect>, b: Option<Rect>, r: Option<Rect>) -> bool {
    match (a, b) {
        (None, b) => r == b,
        (a, None) => r == a,
        (Some(x), Some(y)) => r matches Some(z) && is_rect_union(x, y, z),
    }
}

/// `r` is the envelope `a` moved by `v`: empty stays empty, and a box gives
/// an outcome of kurbo's move of it.
pub open spec fn is_translated(a: Option<Rect>, v: Vec2, r: Option<Rect>) -> bool {
    match a {
        None => r is None,
        Some(x) => r matches Some(z) && is_rect_displaced(x, v, z),
    }
}

/// The `i`th widening step (`i >= 1`): box `i` is an outcome of widening box
/// `i - 1` by point `i`.
pub open spec fn widen_step(pts: Seq<Point>, boxes: Seq<Rect>, i: int) -> bool {
    is_rect_union_point(boxes[i - 1], pts[i], boxes[i])
}

/// `boxes` are the tight boxes of the nonempty prefixes of `pts`: the first is
/// the zero-area box at the first point, and each next one is the previous
/// widened by the next point.
pub open spec fn widening(pts: Seq<Point>, boxes: Seq<Rect>) -> bool {
    &&& pts.len() > 0
    &&& boxes.len() == pts.len()
    &&& is_rect_at_point(pts[0], boxes[0])
    &&& forall|i: int| 1 <= i < pts.len() ==> #[trigger] widen_step(pts, boxes, i)
}

/// `e` is the envelope of a run of points: empty for no points, else their
/// tight box.
pub open spec fn is_envelope_of(pts: Seq<Point>, e: Option<Rect>) -> bool {
    if pts.len() == 0 {
        e is None
    } else {
        exists|boxes: Seq<Rect>| #[trigger] widening(pts, boxes) && e == Some(boxes.last())
    }
}

impl BoundingBox {
    pub closed spec fn spec_rect(&self) -> Option<Rect> {
        self.0
    }

    /// The empty envelope.
    pub fn empty() -> (b: BoundingBox)
        ensures
            b@ == None::<Rect>,
    {
        BoundingBox(None)
    }

    /// The envelope of exactly `r`.
    pub fn from_rect(r: Rect) -> (b: BoundingBox)
        ensures
            b@ == Some(r),
    {
        BoundingBox(Some(r))
    }

    /// The tight bounding box of a slice of points; empty for no points.
    pub fn from_points(pts: &[Point]) -> (b: BoundingBox)
        ensures
            is_envelope_of(pts@, b@),
    {
        let n = pts.len();
        if n == 0 {
            return BoundingBox(None);
        }
        let mut r = rect_from_point(pts[0]);
        let ghost mut boxes: Seq<Rect> = seq![r];
        let mut i: usize = 1;
        while i < n
            invariant
                n == pts@.len(),
                1 <= i <= n,
                widening(pts@.subrange(0, i as int), boxes),
                r == boxes.last(),
            decreases n - i,
        {
            let next = union_rect_point(r, pts[i]);
            proof {
                let old_boxes = boxes;
                boxes = boxes.push(next);
                let sub = pts@.subrange(0, i + 1);
                assert forall|j: int| 1 <= j < sub.len() implies #[trigger] widen_step(
                    sub,
                    boxes,
                    j,
                ) by {
                    if j < i {
                        assert(widen_step(pts@.subrange(0, i as int), old_boxes, j));
                    }
                }
            }
            r = next;
            i = i + 1;
        }
        assert(pts@.subrange(0, n as int) =~= pts@);
        assert(widening(pts@, boxes));
        BoundingBox(Some(r))
    }

    /// The box, or `None` for the empty envelope.
    pub fn rect(self) -> (r: Option<Rect>)
        ensures
            r == self@,
    {
        self.0
    }

    /// The smallest envelope enclosing both.
    pub fn union(self, other: BoundingBox) -> (b: BoundingBox)
        ensures
            is_union_of(self@, other@, b@),
    {
        match (self.0, other.0) {
            (None, b) => BoundingBox(b),
            (a, None) => BoundingBox(a),
            (Some(a), Some(b)) => BoundingBox(Some(union_rects(a, b))),
        }
    }

    /// The envelope moved by `v`.
    pub fn translate(self, v: Vec2) -> (b: BoundingBox)
        ensures
            is_translated(self@, v, b@),
    {
        match self.0 {
            None => BoundingBox(None),
            Some(r) => BoundingBox(Some(displace_rect(r, v))),
        }
    }
}

/// The empty envelope is a left and right identity for `union`.
pub proof fn law_empty_envelope_is_union_identity(b: BoundingBox, r: Option<Rect>)
    ensures
        is_union_of(None, b@, r) <==> r == b@,
        is_union_of(b@, None, r) <==> r == b@,
{
}

/// Moving the empty envelope leaves it empty.
pub proof fn law_translate_empty_envelope(v: Vec2, r: Option<Rect>)
    ensures
        is_translated(None, v, r) <==> r is None,
{
}

/// The union of two envelopes is empty exactly when both are.
pub proof fn law_union_empty_iff(a: BoundingBox, b: BoundingBox, r: Option<Rect>)
    requires
        is_union_of(a@, b@, r),
    ensures
        r is None <==> (a@ is None && b@ is None),
{
}

/// Adding a point to a run of points widens its tight box by that point.
pub proof fn law_points_envelope_push(pts: Seq<Point>, p: Point, t: Rect, u: Rect)
    requires
        is_envelope_of(pts, Some(t)),
        is_rect_union_point(t, p, u),
    ensures
        is_envelope_of(pts.push(p), Some(u)),
{
    let boxes = choose|boxes: Seq<Rect>| #[trigger] widening(pts, boxes) && Some(t) == Some(boxes.last());
    let q = pts.push(p);
    let bx = boxes.push(u);
    assert forall|j: int| 1 <= j < q.len() implies #[trigger] widen_step(q, bx, j) by {
        if j < pts.len() {
            assert(widen_step(pts, boxes, j));
        }
    }
    assert(widening(q, bx));
}

} // verus!
