//! The [`Diagram`] type: the central composable drawing primitive.
//!
//! A diagram is an immutable scene tree together with its envelope. Diagrams
//! form a monoid: [`Diagram::empty`] is the identity and `d1 + d2`
//! superimposes `d2` on top of `d1` (origins coincide).
//!
//! The tree is generic in its style `S` and in the primitive shapes `P` that
//! its leaves may hold.

use std::sync::Arc;

use vstd::prelude::*;

use kurbo::{Point, Vec2};
use crate::envelope::{is_union_of, is_translated, is_envelope_of, BoundingBox};
use crate::trail::{Trail, follows};
use crate::style::{Style, unstyled};
use crate::geom::{is_kurbo_origin, lemma_is_kurbo_origin, origin};

verus! {

/// A node of the scene tree.
#[derive(Clone, Debug)]
pub enum DiagramNode<S, P> {
    /// The empty diagram.
    Empty,
    /// A primitive shape centred at the origin.
    Shape(P),
    /// A stroked (open) trail starting at `start`.
    StrokedTrail { trail: Trail, start: Point },
    /// A style that overrides the enclosing one on `child`.
    Styled { style: S, child: Arc<DiagramNode<S, P>> },
    /// `child` moved by `offset`.
    Translated { offset: Vec2, child: Arc<DiagramNode<S, P>> },
    /// Diagrams superimposed back to front (the last is on top).
    Group(Vec<Arc<DiagramNode<S, P>>>),
}

/// A composable vector-graphics diagram: a scene tree and its envelope.
#[derive(Clone, Debug)]
pub struct Diagram<S, P> {
    node: Arc<DiagramNode<S, P>>,
    bbox: BoundingBox,
}

/// What a node draws, back to front, with groups opened: a group draws what
/// its children draw in turn, the empty node draws nothing, and any other
/// node is drawn as one whole.
pub open spec fn drawn<S, P>(n: DiagramNode<S, P>) -> Seq<DiagramNode<S, P>>
    decreases n, 1nat,
{
    match n {
        DiagramNode::Empty => Seq::empty(),
        DiagramNode::Group(ch) => drawn_all(ch@),
        _ => seq![n],
    }
}

/// What a run of nodes draws, one after the other.
pub open spec fn drawn_all<S, P>(ns: Seq<Arc<DiagramNode<S, P>>>) -> Seq<DiagramNode<S, P>>
    decreases ns, 0nat,
{
    if ns.len() == 0 {
        Seq::empty()
    } else {
        drawn_all(ns.drop_last()) + drawn(*ns.last())
    }
}

/// The nodes that `a` contributes to a superimposition: none for the empty
/// node, the children of a group, else `a` itself.
pub open spec fn parts<S, P>(a: Arc<DiagramNode<S, P>>) -> Seq<Arc<DiagramNode<S, P>>> {
    match *a {
        DiagramNode::Empty => Seq::empty(),
        DiagramNode::Group(ch) => ch@,
        _ => seq![a],
    }
}

/// std's `Arc::clone`: another handle to the same value.
#[verifier::external_body]
fn share<T>(a: &Arc<T>) -> (b: Arc<T>)
    ensures
        b == *a,
{
    Arc::clone(a)
}

/// Appends to `children` what `node` contributes to a superimposition.
fn push_parts<S, P>(children: &mut Vec<Arc<DiagramNode<S, P>>>, node: Arc<DiagramNode<S, P>>)
    ensures
        final(children)@ == old(children)@ + parts(node),
{
    match &*node {
        DiagramNode::Empty => {
            assert(final(children)@ =~= old(children)@ + parts(node));
        },
        DiagramNode::Group(ch) => {
            let n = ch.len();
            let mut i: usize = 0;
            while i < n
                invariant
                    n == ch@.len(),
                    i <= n,
                    children@ == old(children)@ + ch@.subrange(0, i as int),
                decreases n - i,
            {
                children.push(share(&ch[i]));
                assert(children@ =~= old(children)@ + ch@.subrange(0, i + 1));
                i = i + 1;
            }
            assert(ch@.subrange(0, n as int) =~= ch@);
        },
        _ => {
            children.push(node);
            assert(final(children)@ =~= old(children)@ + parts(node));
        },
    }
}

impl<S, P> Diagram<S, P> {
    /// The root of the scene tree.
    pub open spec fn spec_node(&self) -> DiagramNode<S, P> {
        *self.spec_root()
    }

    /// The handle to the root of the scene tree.
    pub closed spec fn spec_root(&self) -> Arc<DiagramNode<S, P>> {
        self.node
    }

    /// The envelope.
    pub closed spec fn spec_bbox(&self) -> Option<kurbo::Rect> {
        self.bbox@
    }

    /// The empty diagram: no visual content, empty envelope.
    pub fn empty() -> (d: Diagram<S, P>)
        ensures
            d.spec_node() == DiagramNode::<S, P>::Empty,
            d.spec_bbox() == None::<kurbo::Rect>,
    {
        Diagram { node: Arc::new(DiagramNode::Empty), bbox: BoundingBox::empty() }
    }

    /// A diagram with the given root node and envelope.
    pub fn from_node(node: DiagramNode<S, P>, bbox: BoundingBox) -> (d: Diagram<S, P>)
        ensures
            d.spec_node() == node,
            d.spec_bbox() == bbox@,
    {
        Diagram { node: Arc::new(node), bbox }
    }

    /// The root of the scene tree.
    pub fn node(&self) -> (n: &DiagramNode<S, P>)
        ensures
            *n == self.spec_node(),
    {
        &*self.node
    }

    /// The envelope.
    pub fn bbox(&self) -> (b: BoundingBox)
        ensures
            b@ == self.spec_bbox(),
    {
        self.bbox
    }
}

proof fn lemma_drawn_all_concat<S, P>(a: Seq<Arc<DiagramNode<S, P>>>, b: Seq<Arc<DiagramNode<S, P>>>)
    ensures
        drawn_all(a + b) == drawn_all(a) + drawn_all(b),
    decreases b.len(),
{
    if b.len() == 0 {
        assert(a + b =~= a);
        assert(drawn_all(a) + drawn_all(b) =~= drawn_all(a));
    } else {
        assert((a + b).drop_last() =~= a + b.drop_last());
        assert((a + b).last() == b.last());
        lemma_drawn_all_concat(a, b.drop_last());
        assert(drawn_all(a + b) =~= drawn_all(a) + drawn_all(b));
    }
}

proof fn lemma_drawn_parts<S, P>(a: Arc<DiagramNode<S, P>>)
    ensures
        drawn_all(parts(a)) == drawn(*a),
{
    match *a {
        DiagramNode::Empty => {},
        DiagramNode::Group(ch) => {},
        _ => {
            let s = seq![a];
            assert(s.drop_last() =~= Seq::<Arc<DiagramNode<S, P>>>::empty());
            assert(s.last() == a);
            assert(drawn_all(s.drop_last()) == Seq::<DiagramNode<S, P>>::empty());
            assert(drawn_all(s) == drawn_all(s.drop_last()) + drawn(*s.last()));
            assert(drawn_all(s) =~= drawn(*a));
            assert(parts(a) == s);
        },
    }
}

/// Superimposing draws what the first diagram draws and then, on top, what
/// the second one draws.
pub proof fn law_superimpose_draws_both<S, P>(a: Arc<DiagramNode<S, P>>, b: Arc<DiagramNode<S, P>>)
    ensures
        drawn_all(parts(a) + parts(b)) == drawn(*a) + drawn(*b),
{
    lemma_drawn_all_concat(parts(a), parts(b));
    lemma_drawn_parts(a);
    lemma_drawn_parts(b);
}

impl<S, P> Diagram<S, P> {
    /// A diagram that draws what `a` draws and then what `b` draws, with the
    /// union of their envelopes.
    pub closed spec fn superimposition(a: Diagram<S, P>, b: Diagram<S, P>) -> Diagram<S, P> {
        choose|d: Diagram<S, P>|
            drawn(d.spec_node()) == drawn(a.spec_node()) + drawn(b.spec_node()) && is_union_of(
                a.spec_bbox(),
                b.spec_bbox(),
                d.spec_bbox(),
            )
    }
}

/// Superimposes `rhs` on top of `self` (origins coincide): `d1 + d2`.
impl<S, P> core::ops::Add for Diagram<S, P> {
    type Output = Diagram<S, P>;

    /// Nested groups are flattened one level and empty diagrams dropped; the
    /// result draws what `self` draws and then what `rhs` draws, and its
    /// envelope is the union of the two.
    fn add(self, rhs: Diagram<S, P>) -> (d: Diagram<S, P>)
        ensures
            d.spec_node() matches DiagramNode::Group(ch) && ch@ == parts(self.spec_root()) + parts(
                rhs.spec_root(),
            ),
            drawn(d.spec_node()) == drawn(self.spec_node()) + drawn(rhs.spec_node()),
            is_union_of(self.spec_bbox(), rhs.spec_bbox(), d.spec_bbox()),
    {
        let ghost a = self.node;
        let ghost b = rhs.node;
        let mut children: Vec<Arc<DiagramNode<S, P>>> = Vec::new();
        push_parts(&mut children, self.node);
        push_parts(&mut children, rhs.node);
        assert(children@ =~= parts(a) + parts(b));
        proof {
            law_superimpose_draws_both(a, b);
        }
        Diagram { node: Arc::new(DiagramNode::Group(children)), bbox: self.bbox.union(rhs.bbox) }
    }
}

impl<S, P> vstd::std_specs::ops::AddSpecImpl for Diagram<S, P> {
    /// The contract of `add` above is stated on the impl itself.
    open spec fn obeys_add_spec() -> bool {
        false
    }

    open spec fn add_req(self, rhs: Diagram<S, P>) -> bool {
        true
    }

    open spec fn add_spec(self, rhs: Diagram<S, P>) -> Diagram<S, P> {
        Diagram::superimposition(self, rhs)
    }
}

impl<S, P> Default for Diagram<S, P> {
    /// The empty diagram.
    fn default() -> (d: Diagram<S, P>)
        ensures
            d.spec_node() == DiagramNode::<S, P>::Empty,
            d.spec_bbox() == None::<kurbo::Rect>,
    {
        Diagram::empty()
    }
}

/// The empty diagram draws nothing and has the empty envelope, so it is a left
/// and right identity for superimposition.
pub proof fn law_empty_diagram_is_identity<S, P>(d: Diagram<S, P>)
    ensures
        drawn(DiagramNode::<S, P>::Empty) + drawn(d.spec_node()) == drawn(d.spec_node()),
        drawn(d.spec_node()) + drawn(DiagramNode::<S, P>::Empty) == drawn(d.spec_node()),
        forall|r: Option<kurbo::Rect>| is_union_of(None, d.spec_bbox(), r) <==> r == d.spec_bbox(),
        forall|r: Option<kurbo::Rect>| is_union_of(d.spec_bbox(), None, r) <==> r == d.spec_bbox(),
{
    assert(drawn(DiagramNode::<S, P>::Empty) + drawn(d.spec_node()) =~= drawn(d.spec_node()));
    assert(drawn(d.spec_node()) + drawn(DiagramNode::<S, P>::Empty) =~= drawn(d.spec_node()));
}

/// Superimposition is associative in what it draws.
pub proof fn law_superimpose_associative<S, P>(a: Diagram<S, P>, b: Diagram<S, P>, c: Diagram<S, P>)
    ensures
        (drawn(a.spec_node()) + drawn(b.spec_node())) + drawn(c.spec_node()) == drawn(a.spec_node())
            + (drawn(b.spec_node()) + drawn(c.spec_node())),
{
    assert((drawn(a.spec_node()) + drawn(b.spec_node())) + drawn(c.spec_node()) =~= drawn(
        a.spec_node(),
    ) + (drawn(b.spec_node()) + drawn(c.spec_node())));
}

impl<S, P> Diagram<S, P> {
    /// `self` with `style` overriding the enclosing style; the envelope is
    /// unchanged.
    pub fn styled(self, style: S) -> (d: Diagram<S, P>)
        ensures
            d.spec_node() == (DiagramNode::Styled { style, child: self.spec_root() }),
            d.spec_bbox() == self.spec_bbox(),
    {
        Diagram { node: Arc::new(DiagramNode::Styled { style, child: self.node }), bbox: self.bbox }
    }

    /// `self` moved by `offset`, envelope included.
    pub fn translate_by(self, offset: Vec2) -> (d: Diagram<S, P>)
        ensures
            d.spec_node() == (DiagramNode::Translated { offset, child: self.spec_root() }),
            is_translated(self.spec_bbox(), offset, d.spec_bbox()),
    {
        Diagram {
            node: Arc::new(DiagramNode::Translated { offset, child: self.node }),
            bbox: self.bbox.translate(offset),
        }
    }
}

impl<C, N, D, G, P> Diagram<Style<C, N, D, G>, P> {
    /// Sets the line (stroke) colour: `self` under a style with only that set.
    pub fn lc(self, color: C) -> (d: Diagram<Style<C, N, D, G>, P>)
        ensures
            d.spec_node() == (DiagramNode::Styled {
                style: Style { stroke_color: Some(color), ..unstyled::<C, N, D, G>() },
                child: self.spec_root(),
            }),
            d.spec_bbox() == self.spec_bbox(),
    {
        self.stroke_color(color)
    }

    /// Sets the line (stroke) colour: `self` under a style with only that set.
    pub fn stroke_color(self, color: C) -> (d: Diagram<Style<C, N, D, G>, P>)
        ensures
            d.spec_node() == (DiagramNode::Styled {
                style: Style { stroke_color: Some(color), ..unstyled::<C, N, D, G>() },
                child: self.spec_root(),
            }),
            d.spec_bbox() == self.spec_bbox(),
    {
        let mut style: Style<C, N, D, G> = Style::default();
        style.stroke_color = Some(color);
        self.styled(style)
    }

    /// Sets the fill colour: `self` under a style with only that set.
    pub fn fc(self, color: C) -> (d: Diagram<Style<C, N, D, G>, P>)
        ensures
            d.spec_node() == (DiagramNode::Styled {
                style: Style { fill_color: Some(color), ..unstyled::<C, N, D, G>() },
                child: self.spec_root(),
            }),
            d.spec_bbox() == self.spec_bbox(),
    {
        self.fill_color(color)
    }

    /// Sets the fill colour: `self` under a style with only that set.
    pub fn fill_color(self, color: C) -> (d: Diagram<Style<C, N, D, G>, P>)
        ensures
            d.spec_node() == (DiagramNode::Styled {
                style: Style { fill_color: Some(color), ..unstyled::<C, N, D, G>() },
                child: self.spec_root(),
            }),
            d.spec_bbox() == self.spec_bbox(),
    {
        let mut style: Style<C, N, D, G> = Style::default();
        style.fill_color = Some(color);
        self.styled(style)
    }

    /// Sets the stroke width: `self` under a style with only that set.
    pub fn lw(self, width: N) -> (d: Diagram<Style<C, N, D, G>, P>)
        ensures
            d.spec_node() == (DiagramNode::Styled {
                style: Style { stroke_width: Some(width), ..unstyled::<C, N, D, G>() },
                child: self.spec_root(),
            }),
            d.spec_bbox() == self.spec_bbox(),
    {
        self.stroke_width(width)
    }

    /// Sets the stroke width: `self` under a style with only that set.
    pub fn stroke_width(self, width: N) -> (d: Diagram<Style<C, N, D, G>, P>)
        ensures
            d.spec_node() == (DiagramNode::Styled {
                style: Style { stroke_width: Some(width), ..unstyled::<C, N, D, G>() },
                child: self.spec_root(),
            }),
            d.spec_bbox() == self.spec_bbox(),
    {
        let mut style: Style<C, N, D, G> = Style::default();
        style.stroke_width = Some(width);
        self.styled(style)
    }

    /// Sets the overall opacity: `self` under a style with only that set.
    pub fn opacity(self, o: N) -> (d: Diagram<Style<C, N, D, G>, P>)
        ensures
            d.spec_node() == (DiagramNode::Styled {
                style: Style { opacity: Some(o), ..unstyled::<C, N, D, G>() },
                child: self.spec_root(),
            }),
            d.spec_bbox() == self.spec_bbox(),
    {
        let mut style: Style<C, N, D, G> = Style::default();
        style.opacity = Some(o);
        self.styled(style)
    }
}

/// `e` is the envelope of the points reached from `start` by following
/// `segs`: their tight box.
pub open spec fn is_stroke_envelope(start: Point, segs: Seq<Vec2>, e: Option<kurbo::Rect>) -> bool {
    exists|pts: Seq<Point>| #[trigger] follows(start, segs, pts) && is_envelope_of(pts, e)
}

/// `d` is `trail` stroked from `start`: an open path with no fill, whose
/// envelope is the tight box of the trail's points.
pub open spec fn stroked_from<S, P>(d: Diagram<S, P>, trail: Trail, start: Point) -> bool {
    &&& d.spec_node() == (DiagramNode::<S, P>::StrokedTrail { trail, start })
    &&& is_stroke_envelope(start, trail@, d.spec_bbox())
}

/// Converts a trail into a stroked diagram (open path, no fill) starting at
/// `start`; its envelope is the tight box of the trail's points.
pub fn stroke_trail_at<S, P>(trail: Trail, start: Point) -> (d: Diagram<S, P>)
    ensures
        stroked_from(d, trail, start),
{
    let pts = trail.to_points(start);
    let bbox = BoundingBox::from_points(pts.as_slice());
    let d = Diagram { node: Arc::new(DiagramNode::StrokedTrail { trail, start }), bbox };
    assert(follows(start, trail@, pts@) && is_envelope_of(pts@, d.spec_bbox()));
    d
}

/// Converts a trail into a stroked diagram (open path, no fill), with its
/// start at kurbo's origin point `Point::ORIGIN`.
pub fn stroke_trail<S, P>(trail: Trail) -> (d: Diagram<S, P>)
    ensures
        exists|start: Point| is_kurbo_origin(start) && #[trigger] stroked_from(d, trail, start),
{
    let start = origin();
    proof {
        lemma_is_kurbo_origin(start);
    }
    let d = stroke_trail_at(trail, start);
    assert(is_kurbo_origin(start) && stroked_from(d, trail, start));
    d
}

} // verus!
