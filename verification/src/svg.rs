//! The SVG backend: walks the scene tree, resolves styles from the outside
//! in, and assembles the SVG markup.
//!
//! Numbers reach this module already formatted: the decimal formatting of
//! coordinates and widths is floating-point work done by the caller.

use std::sync::Arc;

use vstd::prelude::*;
use vstd::string::StringExecFns;

use kurbo::{Point, Vec2};
use crate::diagram::{Diagram, DiagramNode, parts};
use crate::geom::{add_vec2, displace_point, is_point_displaced, is_vec2_sum};
use crate::style::{Style, law_merge_associative, law_unstyled_is_merge_identity, merged, option_cloned, unstyled};
use crate::trail::{follows, running_sums, sum_step, sums_to};

verus! {

/// The SVG backend. Renders a diagram to an SVG string.
pub struct SvgBackend;

impl SvgBackend {
    /// The SVG backend.
    pub fn new() -> (b: SvgBackend)
        ensures
            b == SvgBackend,
    {
        SvgBackend
    }
}

impl Default for SvgBackend {
    /// The SVG backend.
    fn default() -> (b: SvgBackend)
        ensures
            b == SvgBackend,
    {
        SvgBackend::new()
    }
}

/// An error of the SVG backend, with its message.
pub struct SvgError(pub String);

/// `SVG render error: ` followed by the message.
pub open spec fn svg_error_text(message: Seq<char>) -> Seq<char> {
    "SVG render error: "@ + message
}

impl SvgError {
    /// The text that describes the error: `SVG render error: ` and the message.
    pub fn describe(&self) -> (s: String)
        ensures
            s@ == svg_error_text(self.0@),
    {
        let mut s = String::from_str("SVG render error: ");
        s.append(self.0.as_str());
        s
    }
}

// ── Scene traversal ──────────────────────────────────────────────────────────

/// `off` is the accumulated offset of the moves `offs`, outer first: none for
/// no moves, else an outcome of summing their offsets from the first to the
/// last.
pub open spec fn is_offset_of(offs: Seq<Vec2>, off: Option<Vec2>) -> bool {
    if offs.len() == 0 {
        off is None
    } else {
        off matches Some(o) && sums_to(offs[0], offs.drop_first(), o)
    }
}

/// `q` is `p` moved by the accumulated offset, if there is one (an outcome of
/// kurbo's displacement).
pub open spec fn is_shifted(p: Point, off: Option<Vec2>, q: Point) -> bool {
    match off {
        None => q == p,
        Some(v) => is_point_displaced(p, v, q),
    }
}

/// `pts` are the points of a trail with segments `segs` whose start `start`
/// is moved by the moves `offs`: the points reached from the moved start.
pub open spec fn is_stroke_points(start: Point, offs: Seq<Vec2>, segs: Seq<Vec2>, pts: Seq<Point>) -> bool {
    exists|off: Option<Vec2>, s: Point|
        #![trigger is_offset_of(offs, off), follows(s, segs, pts)]
        is_offset_of(offs, off) && is_shifted(start, off, s) && follows(s, segs, pts)
}

/// The stroked trails of the node, back to front, each as (start, segments,
/// moves above it, outer first). Shapes contribute none.
pub open spec fn strokes_in<S, P>(n: DiagramNode<S, P>, offs: Seq<Vec2>) -> Seq<(Point, Seq<Vec2>, Seq<Vec2>)>
    decreases n, 1nat,
{
    match n {
        DiagramNode::Empty => Seq::empty(),
        DiagramNode::Shape(_) => Seq::empty(),
        DiagramNode::StrokedTrail { trail, start } => seq![(start, trail@, offs)],
        DiagramNode::Styled { style, child } => strokes_in(*child, offs),
        DiagramNode::Translated { offset, child } => strokes_in(*child, offs.push(offset)),
        DiagramNode::Group(ch) => strokes_in_all(ch@, offs),
    }
}

/// The stroked trails of a run of nodes, one after the other.
pub open spec fn strokes_in_all<S, P>(ns: Seq<Arc<DiagramNode<S, P>>>, offs: Seq<Vec2>) -> Seq<
    (Point, Seq<Vec2>, Seq<Vec2>),
>
    decreases ns, 0nat,
{
    if ns.len() == 0 {
        Seq::empty()
    } else {
        strokes_in_all(ns.drop_last(), offs) + strokes_in(*ns.last(), offs)
    }
}

/// The stroked trails of the `i`th node of `ns`.
pub open spec fn strokes_at<S, P>(ns: Seq<Arc<DiagramNode<S, P>>>, i: int, offs: Seq<Vec2>) -> Seq<
    (Point, Seq<Vec2>, Seq<Vec2>),
> {
    strokes_in(*ns[i], offs)
}

/// All the runs, one after the other.
pub open spec fn flat<A>(runs: Seq<Seq<A>>) -> Seq<A>
    decreases runs.len(),
{
    if runs.len() == 0 {
        Seq::empty()
    } else {
        flat(runs.drop_last()) + runs.last()
    }
}

/// Run `i` of `chunks` holds the points of stroke `i`.
pub open spec fn chunk_step(strokes: Seq<(Point, Seq<Vec2>, Seq<Vec2>)>, chunks: Seq<Seq<Point>>, i: int) -> bool {
    is_stroke_points(strokes[i].0, strokes[i].2, strokes[i].1, chunks[i])
}

/// `chunks` hold the points of the strokes, one run per stroke.
pub open spec fn are_stroke_points(strokes: Seq<(Point, Seq<Vec2>, Seq<Vec2>)>, chunks: Seq<Seq<Point>>) -> bool {
    &&& chunks.len() == strokes.len()
    &&& forall|i: int| 0 <= i < strokes.len() ==> #[trigger] chunk_step(strokes, chunks, i)
}

proof fn lemma_flat_concat<A>(a: Seq<Seq<A>>, b: Seq<Seq<A>>)
    ensures
        flat(a + b) == flat(a) + flat(b),
    decreases b.len(),
{
    if b.len() == 0 {
        assert(a + b =~= a);
        assert(flat(a) + flat(b) =~= flat(a));
    } else {
        assert((a + b).drop_last() =~= a + b.drop_last());
        assert((a + b).last() == b.last());
        lemma_flat_concat(a, b.drop_last());
        assert(flat(a + b) =~= flat(a) + flat(b));
    }
}

proof fn lemma_stroke_points_concat(
    sa: Seq<(Point, Seq<Vec2>, Seq<Vec2>)>,
    ca: Seq<Seq<Point>>,
    sb: Seq<(Point, Seq<Vec2>, Seq<Vec2>)>,
    cb: Seq<Seq<Point>>,
)
    requires
        are_stroke_points(sa, ca),
        are_stroke_points(sb, cb),
    ensures
        are_stroke_points(sa + sb, ca + cb),
{
    assert forall|i: int| 0 <= i < (sa + sb).len() implies #[trigger] chunk_step(sa + sb, ca + cb, i) by {
        if i < sa.len() {
            assert(chunk_step(sa, ca, i));
        } else {
            assert(chunk_step(sb, cb, i - sa.len()));
        }
    }
}

fn then_offset_exec(off: Option<Vec2>, v: Vec2, Ghost(offs): Ghost<Seq<Vec2>>) -> (r: Option<Vec2>)
    requires
        is_offset_of(offs, off),
    ensures
        is_offset_of(offs.push(v), r),
{
    let grown = Ghost(offs.push(v));
    match off {
        None => {
            assert(running_sums(v, Seq::<Vec2>::empty(), seq![v]));
            assert(grown@.drop_first() =~= Seq::<Vec2>::empty());
            Some(v)
        },
        Some(o) => {
            let r = add_vec2(o, v);
            proof {
                let segs = offs.drop_first();
                let acc = choose|acc: Seq<Vec2>| #[trigger] running_sums(offs[0], segs, acc) && acc.last() == o;
                let segs2 = grown@.drop_first();
                assert(segs2 =~= segs.push(v));
                let acc2 = acc.push(r);
                assert forall|j: int| 0 <= j < segs2.len() implies #[trigger] sum_step(segs2, acc2, j) by {
                    if j < segs.len() {
                        assert(sum_step(segs, acc, j));
                    }
                }
                assert(running_sums(grown@[0], segs2, acc2));
            }
            Some(r)
        },
    }
}

fn shift_point(p: Point, off: Option<Vec2>) -> (q: Point)
    ensures
        is_shifted(p, off, q),
{
    match off {
        None => p,
        Some(v) => displace_point(p, v),
    }
}

fn collect_node_points<S, P>(
    n: &DiagramNode<S, P>,
    off: Option<Vec2>,
    Ghost(offs): Ghost<Seq<Vec2>>,
    out: &mut Vec<Point>,
) -> (chunks: Ghost<Seq<Seq<Point>>>)
    requires
        is_offset_of(offs, off),
    ensures
        are_stroke_points(strokes_in(*n, offs), chunks@),
        final(out)@ == old(out)@ + flat(chunks@),
    decreases *n,
{
    match n {
        DiagramNode::Empty => {
            assert(final(out)@ =~= old(out)@ + flat(Seq::<Seq<Point>>::empty()));
            Ghost(Seq::empty())
        },
        DiagramNode::Shape(_) => {
            assert(final(out)@ =~= old(out)@ + flat(Seq::<Seq<Point>>::empty()));
            Ghost(Seq::empty())
        },
        DiagramNode::StrokedTrail { trail, start } => {
            let s = shift_point(*start, off);
            let mut pts = trail.to_points(s);
            let ghost pv = pts@;
            out.append(&mut pts);
            let ghost c: Seq<Seq<Point>> = seq![pv];
            proof {
                assert(c.drop_last() =~= Seq::<Seq<Point>>::empty());
                assert(flat(c.drop_last()) == Seq::<Point>::empty());
                assert(c.last() == pv);
                assert(flat(c) =~= pv);
                assert(is_offset_of(offs, off) && is_shifted(*start, off, s) && follows(s, trail@, pv));
                assert(chunk_step(strokes_in(*n, offs), c, 0));
            }
            Ghost(c)
        },
        DiagramNode::Styled { style, child } => {
            collect_node_points(&**child, off, Ghost(offs), out)
        },
        DiagramNode::Translated { offset, child } => {
            let next = then_offset_exec(off, *offset, Ghost(offs));
            collect_node_points(&**child, next, Ghost(offs.push(*offset)), out)
        },
        DiagramNode::Group(ch) => {
            let len = ch.len();
            let mut i: usize = 0;
            let ghost mut chunks: Seq<Seq<Point>> = Seq::empty();
            assert(ch@.subrange(0, 0) =~= Seq::<Arc<DiagramNode<S, P>>>::empty());
            assert(out@ =~= old(out)@ + flat(chunks));
            while i < len
                invariant
                    *n == DiagramNode::<S, P>::Group(*ch),
                    len == ch@.len(),
                    i <= len,
                    is_offset_of(offs, off),
                    are_stroke_points(strokes_in_all(ch@.subrange(0, i as int), offs), chunks),
                    out@ == old(out)@ + flat(chunks),
                decreases len - i,
            {
                proof {
                    vstd::std_specs::vec::axiom_vec_index_decreases(*ch, i as int);
                    assert(decreases_to!(*n => (*n)->Group_0));
                    assert(decreases_to!(*n => ch@[i as int]));
                }
                let ghost before = out@;
                let c = collect_node_points(&*ch[i], off, Ghost(offs), out);
                proof {
                    let sub = ch@.subrange(0, i as int + 1);
                    assert(sub.drop_last() =~= ch@.subrange(0, i as int));
                    assert(sub.last() == ch@[i as int]);
                    lemma_stroke_points_concat(
                        strokes_in_all(ch@.subrange(0, i as int), offs),
                        chunks,
                        strokes_at(ch@, i as int, offs),
                        c@,
                    );
                    lemma_flat_concat(chunks, c@);
                    chunks = chunks + c@;
                }
                i = i + 1;
            }
            assert(ch@.subrange(0, len as int) =~= ch@);
            Ghost(chunks)
        },
    }
}

/// Every trail point of the diagram, for computing the extent of the output:
/// for each stroked trail, back to front, the points from its start moved by
/// the offsets of the moves above it.
pub fn collect_points<S, P>(diagram: &Diagram<S, P>) -> (pts: Vec<Point>)
    ensures
        exists|chunks: Seq<Seq<Point>>|
            #[trigger] are_stroke_points(strokes_in(diagram.spec_node(), Seq::empty()), chunks)
                && pts@ == flat(chunks),
{
    let mut out: Vec<Point> = Vec::new();
    let c = collect_node_points(diagram.node(), None, Ghost(Seq::empty()), &mut out);
    assert(out@ =~= flat(c@));
    out
}

// ── Style resolution and drawing steps ───────────────────────────────────────

/// One drawing step, back to front: a polyline through absolute points, or a
/// primitive shape moved by the accumulated offset. Each carries its resolved
/// style, whose dash pattern and gradient are borrowed from the scene tree.
pub enum DrawItem<'a, C, N, D, G, P> {
    Polyline { points: Vec<Point>, style: Style<C, N, &'a D, &'a G> },
    Shape { shape: &'a P, offset: Option<Vec2>, style: Style<C, N, &'a D, &'a G> },
}

/// `r` borrows what `s` holds.
pub open spec fn refs_option<T>(r: Option<&T>, s: Option<T>) -> bool {
    match (r, s) {
        (None, None) => true,
        (Some(x), Some(y)) => *x == y,
        _ => false,
    }
}

/// `r` is `s` with its dash pattern and gradient borrowed.
pub open spec fn refs_style<C, N, D, G>(r: Style<C, N, &D, &G>, s: Style<C, N, D, G>) -> bool {
    &&& r.fill_color == s.fill_color
    &&& r.stroke_color == s.stroke_color
    &&& r.stroke_width == s.stroke_width
    &&& r.opacity == s.opacity
    &&& refs_option(r.dash, s.dash)
    &&& r.bold == s.bold
    &&& refs_option(r.fill_gradient, s.fill_gradient)
    &&& r.font_family == s.font_family
}

/// The drawing steps of a node under the style `st` and below the moves
/// `offs` (outer first), back to front, each as (shape, stroked trail as its
/// start and segments, moves, style): a shape gives one step; a stroked trail
/// with segments gives one polyline step (an empty trail gives none); a style
/// is merged over `st` for its child; a move is added to the moves; a group
/// gives the steps of its children in turn.
pub open spec fn draws<C, N, D, G, P>(
    n: DiagramNode<Style<C, N, D, G>, P>,
    st: Style<C, N, D, G>,
    offs: Seq<Vec2>,
) -> Seq<(Option<P>, Option<(Point, Seq<Vec2>)>, Seq<Vec2>, Style<C, N, D, G>)>
    decreases n, 1nat,
{
    match n {
        DiagramNode::Empty => Seq::empty(),
        DiagramNode::Shape(p) => seq![(Some(p), None, offs, st)],
        DiagramNode::StrokedTrail { trail, start } => if trail@.len() == 0 {
            Seq::empty()
        } else {
            seq![(None, Some((start, trail@)), offs, st)]
        },
        DiagramNode::Styled { style, child } => draws(*child, merged(st, style), offs),
        DiagramNode::Translated { offset, child } => draws(*child, st, offs.push(offset)),
        DiagramNode::Group(ch) => draws_all(ch@, st, offs),
    }
}

/// The drawing steps of a run of nodes, one after the other.
pub open spec fn draws_all<C, N, D, G, P>(
    ns: Seq<Arc<DiagramNode<Style<C, N, D, G>, P>>>,
    st: Style<C, N, D, G>,
    offs: Seq<Vec2>,
) -> Seq<(Option<P>, Option<(Point, Seq<Vec2>)>, Seq<Vec2>, Style<C, N, D, G>)>
    decreases ns, 0nat,
{
    if ns.len() == 0 {
        Seq::empty()
    } else {
        draws_all(ns.drop_last(), st, offs) + draws(*ns.last(), st, offs)
    }
}

/// The drawing steps of the `i`th node of `ns`.
pub open spec fn draws_at<C, N, D, G, P>(
    ns: Seq<Arc<DiagramNode<Style<C, N, D, G>, P>>>,
    i: int,
    st: Style<C, N, D, G>,
    offs: Seq<Vec2>,
) -> Seq<(Option<P>, Option<(Point, Seq<Vec2>)>, Seq<Vec2>, Style<C, N, D, G>)> {
    draws(*ns[i], st, offs)
}

/// The drawing step `item` is the one described by `d`: a polyline through
/// the points of the described trail from its moved start, or the described
/// shape with the accumulated offset of the described moves.
pub open spec fn item_matches<'a, C, N, D, G, P>(
    item: DrawItem<'a, C, N, D, G, P>,
    d: (Option<P>, Option<(Point, Seq<Vec2>)>, Seq<Vec2>, Style<C, N, D, G>),
) -> bool {
    match item {
        DrawItem::Polyline { points, style } => {
            &&& d.0 is None
            &&& d.1 matches Some(t) && is_stroke_points(t.0, d.2, t.1, points@)
            &&& refs_style(style, d.3)
        },
        DrawItem::Shape { shape, offset, style } => {
            &&& d.0 == Some(*shape)
            &&& d.1 is None
            &&& is_offset_of(d.2, offset)
            &&& refs_style(style, d.3)
        },
    }
}

/// `items` are the drawing steps described by `ds`, in order.
pub open spec fn items_match<'a, C, N, D, G, P>(
    items: Seq<DrawItem<'a, C, N, D, G, P>>,
    ds: Seq<(Option<P>, Option<(Point, Seq<Vec2>)>, Seq<Vec2>, Style<C, N, D, G>)>,
) -> bool {
    &&& items.len() == ds.len()
    &&& forall|i: int| 0 <= i < items.len() ==> item_matches(#[trigger] items[i], ds[i])
}

fn borrow_option<'a, T>(o: &'a Option<T>) -> (r: Option<&'a T>)
    ensures
        refs_option(r, *o),
{
    match o {
        Some(x) => Some(x),
        None => None,
    }
}

fn copy_font(o: &Option<String>) -> (r: Option<String>)
    ensures
        r == *o,
{
    match o {
        Some(x) => Some(x.clone()),
        None => None,
    }
}

fn borrow_style<'a, C: Copy, N: Copy, D, G>(s: &'a Style<C, N, D, G>) -> (r: Style<
    C,
    N,
    &'a D,
    &'a G,
>)
    ensures
        refs_style(r, *s),
{
    Style {
        fill_color: s.fill_color,
        stroke_color: s.stroke_color,
        stroke_width: s.stroke_width,
        opacity: s.opacity,
        dash: borrow_option(&s.dash),
        bold: s.bold,
        fill_gradient: borrow_option(&s.fill_gradient),
        font_family: copy_font(&s.font_family),
    }
}

fn copy_style<'a, C: Copy, N: Copy, D, G>(s: &Style<C, N, &'a D, &'a G>) -> (r: Style<
    C,
    N,
    &'a D,
    &'a G,
>)
    ensures
        r == *s,
{
    Style {
        fill_color: s.fill_color,
        stroke_color: s.stroke_color,
        stroke_width: s.stroke_width,
        opacity: s.opacity,
        dash: s.dash,
        bold: s.bold,
        fill_gradient: s.fill_gradient,
        font_family: copy_font(&s.font_family),
    }
}

proof fn lemma_cloned_ref<T>(a: &T, b: &T)
    requires
        cloned(a, b),
    ensures
        a == b,
{
}

proof fn lemma_option_cloned_ref<T>(a: Option<&T>, b: Option<&T>)
    requires
        option_cloned(a, b),
    ensures
        a == b,
{
    match (a, b) {
        (Some(x), Some(y)) => lemma_cloned_ref(x, y),
        _ => {},
    }
}

fn merge_borrowed<'a, C: Copy, N: Copy, D, G>(
    outer: &Style<C, N, &'a D, &'a G>,
    inner: &Style<C, N, &'a D, &'a G>,
) -> (r: Style<C, N, &'a D, &'a G>)
    ensures
        r == merged(*outer, *inner),
{
    let r = outer.merge_over(inner);
    proof {
        let m = merged(*outer, *inner);
        lemma_option_cloned_ref(m.dash, r.dash);
        lemma_option_cloned_ref(m.fill_gradient, r.fill_gradient);
    }
    r
}

proof fn lemma_refs_merged<C, N, D, G>(
    r1: Style<C, N, &D, &G>,
    s1: Style<C, N, D, G>,
    r2: Style<C, N, &D, &G>,
    s2: Style<C, N, D, G>,
)
    requires
        refs_style(r1, s1),
        refs_style(r2, s2),
    ensures
        refs_style(merged(r1, r2), merged(s1, s2)),
{
}

proof fn lemma_items_match_concat<'a, C, N, D, G, P>(
    a: Seq<DrawItem<'a, C, N, D, G, P>>,
    da: Seq<(Option<P>, Option<(Point, Seq<Vec2>)>, Seq<Vec2>, Style<C, N, D, G>)>,
    b: Seq<DrawItem<'a, C, N, D, G, P>>,
    db: Seq<(Option<P>, Option<(Point, Seq<Vec2>)>, Seq<Vec2>, Style<C, N, D, G>)>,
)
    requires
        items_match(a, da),
        items_match(b, db),
    ensures
        items_match(a + b, da + db),
{
    assert forall|i: int| 0 <= i < (a + b).len() implies item_matches(
        #[trigger] (a + b)[i],
        (da + db)[i],
    ) by {
        if i < a.len() {
            assert((a + b)[i] == a[i]);
            assert((da + db)[i] == da[i]);
        } else {
            assert((a + b)[i] == b[i - a.len()]);
            assert((da + db)[i] == db[i - a.len()]);
        }
    }
}

fn draw_node<'a, C: Copy, N: Copy, D, G, P>(
    n: &'a DiagramNode<Style<C, N, D, G>, P>,
    st: &Style<C, N, &'a D, &'a G>,
    Ghost(sst): Ghost<Style<C, N, D, G>>,
    off: Option<Vec2>,
    Ghost(offs): Ghost<Seq<Vec2>>,
    out: &mut Vec<DrawItem<'a, C, N, D, G, P>>,
)
    requires
        refs_style(*st, sst),
        is_offset_of(offs, off),
    ensures
        old(out)@.len() <= final(out)@.len(),
        final(out)@.subrange(0, old(out)@.len() as int) == old(out)@,
        items_match(
            final(out)@.subrange(old(out)@.len() as int, final(out)@.len() as int),
            draws(*n, sst, offs),
        ),
    decreases *n,
{
    let ghost start_len = out@.len();
    match n {
        DiagramNode::Empty => {
            assert(out@.subrange(start_len as int, out@.len() as int) =~= Seq::<
                DrawItem<'a, C, N, D, G, P>,
            >::empty());
        },
        DiagramNode::Shape(p) => {
            let style = copy_style(st);
            out.push(DrawItem::Shape { shape: p, offset: off, style });
            let ghost added = out@.subrange(start_len as int, out@.len() as int);
            assert(added.len() == 1);
            assert(added[0] == out@[start_len as int]);
            assert(out@.subrange(0, start_len as int) =~= old(out)@);
        },
        DiagramNode::StrokedTrail { trail, start } => {
            if trail.is_empty() {
                assert(out@.subrange(start_len as int, out@.len() as int) =~= Seq::<
                    DrawItem<'a, C, N, D, G, P>,
                >::empty());
            } else {
                let s = shift_point(*start, off);
                let points = trail.to_points(s);
                assert(is_offset_of(offs, off) && is_shifted(*start, off, s) && follows(s, trail@, points@));
                let style = copy_style(st);
                out.push(DrawItem::Polyline { points, style });
                let ghost added = out@.subrange(start_len as int, out@.len() as int);
                assert(added.len() == 1);
                assert(added[0] == out@[start_len as int]);
                assert(out@.subrange(0, start_len as int) =~= old(out)@);
            }
        },
        DiagramNode::Styled { style, child } => {
            let inner = borrow_style(style);
            let resolved = merge_borrowed(st, &inner);
            proof {
                lemma_refs_merged(*st, sst, inner, *style);
            }
            draw_node(&**child, &resolved, Ghost(merged(sst, *style)), off, Ghost(offs), out);
        },
        DiagramNode::Translated { offset, child } => {
            let next = then_offset_exec(off, *offset, Ghost(offs));
            draw_node(&**child, st, Ghost(sst), next, Ghost(offs.push(*offset)), out);
        },
        DiagramNode::Group(ch) => {
            let len = ch.len();
            let mut i: usize = 0;
            assert(out@.subrange(start_len as int, out@.len() as int) =~= Seq::<
                DrawItem<'a, C, N, D, G, P>,
            >::empty());
            while i < len
                invariant
                    *n == DiagramNode::<Style<C, N, D, G>, P>::Group(*ch),
                    len == ch@.len(),
                    i <= len,
                    refs_style(*st, sst),
                    is_offset_of(offs, off),
                    start_len == old(out)@.len(),
                    start_len <= out@.len(),
                    out@.subrange(0, start_len as int) == old(out)@,
                    items_match(
                        out@.subrange(start_len as int, out@.len() as int),
                        draws_all(ch@.subrange(0, i as int), sst, offs),
                    ),
                decreases len - i,
            {
                proof {
                    vstd::std_specs::vec::axiom_vec_index_decreases(*ch, i as int);
                    assert(decreases_to!(*n => (*n)->Group_0));
                    assert(decreases_to!(*n => ch@[i as int]));
                }
                let ghost before = out@;
                draw_node(&*ch[i], st, Ghost(sst), off, Ghost(offs), out);
                proof {
                    let sub = ch@.subrange(0, i as int + 1);
                    assert(sub.drop_last() =~= ch@.subrange(0, i as int));
                    assert(sub.last() == ch@[i as int]);
                    let prev = before.subrange(start_len as int, before.len() as int);
                    let new = out@.subrange(before.len() as int, out@.len() as int);
                    assert(out@.subrange(0, before.len() as int) == before);
                    lemma_items_match_concat(
                        prev,
                        draws_all(ch@.subrange(0, i as int), sst, offs),
                        new,
                        draws_at(ch@, i as int, sst, offs),
                    );
                    assert(out@.subrange(start_len as int, out@.len() as int) =~= prev + new);
                    assert(out@.subrange(0, start_len as int) =~= before.subrange(
                        0,
                        start_len as int,
                    ));
                }
                i = i + 1;
            }
            assert(ch@.subrange(0, len as int) =~= ch@);
        },
    }
}

/// The drawing steps of a diagram rendered under the style `base`, back to
/// front: every shape and every stroked trail with segments, each with the
/// style that the styles above it resolve to when merged over `base` from the
/// outside in, and with the offsets of the moves above it applied.
pub fn draw_items<'a, C: Copy, N: Copy, D, G, P>(
    diagram: &'a Diagram<Style<C, N, D, G>, P>,
    base: &'a Style<C, N, D, G>,
) -> (items: Vec<DrawItem<'a, C, N, D, G, P>>)
    ensures
        items_match(items@, draws(diagram.spec_node(), *base, Seq::empty())),
{
    let mut out: Vec<DrawItem<'a, C, N, D, G, P>> = Vec::new();
    let st = borrow_style(base);
    draw_node(diagram.node(), &st, Ghost(*base), None, Ghost(Seq::empty()), &mut out);
    assert(out@.subrange(0, out@.len() as int) =~= out@);
    out
}

// ── Markup ───────────────────────────────────────────────────────────────────

/// The parts joined with single spaces between them.
pub open spec fn space_joined(parts: Seq<Seq<char>>) -> Seq<char>
    decreases parts.len(),
{
    if parts.len() == 0 {
        Seq::empty()
    } else if parts.len() == 1 {
        parts[0]
    } else {
        space_joined(parts.drop_last()) + " "@ + parts.last()
    }
}

/// All the parts, one after the other.
pub open spec fn concatenated(parts: Seq<Seq<char>>) -> Seq<char>
    decreases parts.len(),
{
    if parts.len() == 0 {
        Seq::empty()
    } else {
        concatenated(parts.drop_last()) + parts.last()
    }
}

/// The text of an attribute value that may be unset: `none` when unset.
pub open spec fn or_none(v: Option<Seq<char>>) -> Seq<char> {
    match v {
        Some(s) => s,
        None => "none"@,
    }
}

/// A `<polyline>` element line: the points, then the fill, stroke and stroke
/// width attributes, and the opacity attribute when there is one.
pub open spec fn polyline_text(
    points: Seq<Seq<char>>,
    fill: Option<Seq<char>>,
    stroke: Option<Seq<char>>,
    stroke_width: Seq<char>,
    opacity: Option<Seq<char>>,
) -> Seq<char> {
    "  <polyline points=\""@ + space_joined(points) + "\" fill=\""@ + or_none(fill)
        + "\" stroke=\""@ + or_none(stroke) + "\" stroke-width=\""@ + stroke_width + "\""@
        + match opacity {
        Some(o) => " opacity=\""@ + o + "\""@,
        None => Seq::empty(),
    } + " />\n"@
}

/// A whole SVG document: the opening tag with its view box, a background
/// rectangle over the view box when there is a background fill, the elements
/// in order, and the closing tag.
pub open spec fn document_text(
    vx: Seq<char>,
    vy: Seq<char>,
    vw: Seq<char>,
    vh: Seq<char>,
    background: Option<Seq<char>>,
    elements: Seq<Seq<char>>,
) -> Seq<char> {
    "<svg xmlns=\"http://www.w3.org/2000/svg\" viewBox=\""@ + vx + " "@ + vy + " "@ + vw + " "@
        + vh + "\">\n"@ + match background {
        Some(fill) => "  <rect x=\""@ + vx + "\" y=\""@ + vy + "\" width=\""@ + vw
            + "\" height=\""@ + vh + "\" fill=\""@ + fill + "\" />\n"@,
        None => Seq::empty(),
    } + concatenated(elements) + "</svg>\n"@
}

/// The views of a run of strings.
pub open spec fn texts(parts: Seq<String>) -> Seq<Seq<char>> {
    parts.map_values(|p: String| p@)
}

/// The view of an optional string.
pub open spec fn text_of(o: Option<&str>) -> Option<Seq<char>> {
    match o {
        Some(s) => Some(s@),
        None => None,
    }
}

fn append_or_none(out: &mut String, v: Option<&str>)
    ensures
        final(out)@ == old(out)@ + or_none(text_of(v)),
{
    match v {
        Some(s) => out.append(s),
        None => out.append("none"),
    }
}

/// A `<polyline>` element line: `points` are the formatted `x,y` pairs,
/// joined with spaces; an unset fill or stroke is written as `none`; the
/// opacity attribute is written only when there is one.
pub fn polyline_element(
    points: &[String],
    fill: Option<&str>,
    stroke: Option<&str>,
    stroke_width: &str,
    opacity: Option<&str>,
) -> (s: String)
    ensures
        s@ == polyline_text(texts(points@), text_of(fill), text_of(stroke), stroke_width@, text_of(opacity)),
{
    let mut s = String::from_str("  <polyline points=\"");
    let ghost head = s@;
    let n = points.len();
    let mut i: usize = 0;
    while i < n
        invariant
            n == points@.len(),
            i <= n,
            s@ == head + space_joined(texts(points@).subrange(0, i as int)),
        decreases n - i,
    {
        let ghost prev = s@;
        if i > 0 {
            s.append(" ");
        }
        s.append(points[i].as_str());
        proof {
            let t = texts(points@);
            let sub = t.subrange(0, i as int + 1);
            assert(sub.drop_last() =~= t.subrange(0, i as int));
            assert(sub.last() == points@[i as int]@);
            if i == 0 {
                assert(t.subrange(0, 0) =~= Seq::<Seq<char>>::empty());
                assert(s@ =~= head + space_joined(sub));
            } else {
                assert(s@ =~= head + space_joined(sub));
            }
        }
        i = i + 1;
    }
    proof {
        assert(texts(points@).subrange(0, n as int) =~= texts(points@));
    }
    s.append("\" fill=\"");
    append_or_none(&mut s, fill);
    s.append("\" stroke=\"");
    append_or_none(&mut s, stroke);
    s.append("\" stroke-width=\"");
    s.append(stroke_width);
    s.append("\"");
    match opacity {
        Some(o) => {
            s.append(" opacity=\"");
            s.append(o);
            s.append("\"");
        },
        None => {},
    }
    s.append(" />\n");
    assert(s@ =~= polyline_text(texts(points@), text_of(fill), text_of(stroke), stroke_width@, text_of(opacity)));
    s
}

/// A whole SVG document: the opening `<svg>` tag with the view box
/// `vx vy vw vh`, a background `<rect>` over the view box when `background`
/// is a fill, the `elements` in order, and the closing tag.
pub fn svg_document(
    vx: &str,
    vy: &str,
    vw: &str,
    vh: &str,
    background: Option<&str>,
    elements: &[String],
) -> (s: String)
    ensures
        s@ == document_text(vx@, vy@, vw@, vh@, text_of(background), texts(elements@)),
{
    let mut s = String::from_str("<svg xmlns=\"http://www.w3.org/2000/svg\" viewBox=\"");
    s.append(vx);
    s.append(" ");
    s.append(vy);
    s.append(" ");
    s.append(vw);
    s.append(" ");
    s.append(vh);
    s.append("\">\n");
    match background {
        Some(fill) => {
            s.append("  <rect x=\"");
            s.append(vx);
            s.append("\" y=\"");
            s.append(vy);
            s.append("\" width=\"");
            s.append(vw);
            s.append("\" height=\"");
            s.append(vh);
            s.append("\" fill=\"");
            s.append(fill);
            s.append("\" />\n");
        },
        None => {},
    }
    let ghost head = s@;
    let n = elements.len();
    let mut i: usize = 0;
    while i < n
        invariant
            n == elements@.len(),
            i <= n,
            s@ == head + concatenated(texts(elements@).subrange(0, i as int)),
        decreases n - i,
    {
        s.append(elements[i].as_str());
        proof {
            let t = texts(elements@);
            let sub = t.subrange(0, i as int + 1);
            assert(sub.drop_last() =~= t.subrange(0, i as int));
            assert(sub.last() == elements@[i as int]@);
            assert(s@ =~= head + concatenated(sub));
        }
        i = i + 1;
    }
    proof {
        assert(texts(elements@).subrange(0, n as int) =~= texts(elements@));
    }
    s.append("</svg>\n");
    assert(s@ =~= document_text(vx@, vy@, vw@, vh@, text_of(background), texts(elements@)));
    s
}

// ── Laws ─────────────────────────────────────────────────────────────────────

proof fn lemma_draws_all_concat<C, N, D, G, P>(
    a: Seq<Arc<DiagramNode<Style<C, N, D, G>, P>>>,
    b: Seq<Arc<DiagramNode<Style<C, N, D, G>, P>>>,
    st: Style<C, N, D, G>,
    offs: Seq<Vec2>,
)
    ensures
        draws_all(a + b, st, offs) == draws_all(a, st, offs) + draws_all(b, st, offs),
    decreases b.len(),
{
    if b.len() == 0 {
        assert(a + b =~= a);
        assert(draws_all(a, st, offs) + draws_all(b, st, offs) =~= draws_all(a, st, offs));
    } else {
        assert((a + b).drop_last() =~= a + b.drop_last());
        assert((a + b).last() == b.last());
        lemma_draws_all_concat(a, b.drop_last(), st, offs);
        assert(draws_all(a + b, st, offs) =~= draws_all(a, st, offs) + draws_all(b, st, offs));
    }
}

proof fn lemma_draws_parts<C, N, D, G, P>(
    a: Arc<DiagramNode<Style<C, N, D, G>, P>>,
    st: Style<C, N, D, G>,
    offs: Seq<Vec2>,
)
    ensures
        draws_all(parts(a), st, offs) == draws(*a, st, offs),
{
    match *a {
        DiagramNode::Empty => {},
        DiagramNode::Group(ch) => {},
        _ => {
            let s = seq![a];
            assert(s.drop_last() =~= Seq::<Arc<DiagramNode<Style<C, N, D, G>, P>>>::empty());
            assert(s.last() == a);
            assert(draws_all(s.drop_last(), st, offs) =~= Seq::empty());
            assert(draws_all(s, st, offs) == draws_all(s.drop_last(), st, offs) + draws(*s.last(), st, offs));
            assert(draws_all(s, st, offs) =~= draws(*a, st, offs));
            assert(parts(a) == s);
        },
    }
}

/// Rendering a superimposition gives the drawing steps of the first diagram
/// followed by those of the second, under the same style and moves.
pub proof fn law_superimposition_draws_in_order<C, N, D, G, P>(
    a: Arc<DiagramNode<Style<C, N, D, G>, P>>,
    b: Arc<DiagramNode<Style<C, N, D, G>, P>>,
    st: Style<C, N, D, G>,
    offs: Seq<Vec2>,
)
    ensures
        draws_all(parts(a) + parts(b), st, offs) == draws(*a, st, offs) + draws(*b, st, offs),
{
    lemma_draws_all_concat(parts(a), parts(b), st, offs);
    lemma_draws_parts(a, st, offs);
    lemma_draws_parts(b, st, offs);
}

proof fn lemma_strokes_in_all_concat<S, P>(
    a: Seq<Arc<DiagramNode<S, P>>>,
    b: Seq<Arc<DiagramNode<S, P>>>,
    offs: Seq<Vec2>,
)
    ensures
        strokes_in_all(a + b, offs) == strokes_in_all(a, offs) + strokes_in_all(b, offs),
    decreases b.len(),
{
    if b.len() == 0 {
        assert(a + b =~= a);
        assert(strokes_in_all(a, offs) + strokes_in_all(b, offs) =~= strokes_in_all(a, offs));
    } else {
        assert((a + b).drop_last() =~= a + b.drop_last());
        assert((a + b).last() == b.last());
        lemma_strokes_in_all_concat(a, b.drop_last(), offs);
        assert(strokes_in_all(a + b, offs) =~= strokes_in_all(a, offs) + strokes_in_all(b, offs));
    }
}

/// The stroked trails of a superimposition are those of the first diagram
/// followed by those of the second.
pub proof fn law_superimposition_strokes_in_order<S, P>(
    a: Arc<DiagramNode<S, P>>,
    b: Arc<DiagramNode<S, P>>,
    offs: Seq<Vec2>,
)
    ensures
        strokes_in_all(parts(a) + parts(b), offs) == strokes_in(*a, offs) + strokes_in(*b, offs),
{
    lemma_strokes_in_all_concat(parts(a), parts(b), offs);
    match *a {
        DiagramNode::Empty => {},
        DiagramNode::Group(ch) => {},
        _ => {
            let s = seq![a];
            assert(s.drop_last() =~= Seq::<Arc<DiagramNode<S, P>>>::empty());
            assert(s.last() == a);
            assert(strokes_in_all(s.drop_last(), offs) =~= Seq::empty());
            assert(strokes_in_all(s, offs) == strokes_in_all(s.drop_last(), offs) + strokes_in(*s.last(), offs));
            assert(strokes_in_all(s, offs) =~= strokes_in(*a, offs));
            assert(parts(a) == s);
        },
    }
    match *b {
        DiagramNode::Empty => {},
        DiagramNode::Group(ch) => {},
        _ => {
            let s = seq![b];
            assert(s.drop_last() =~= Seq::<Arc<DiagramNode<S, P>>>::empty());
            assert(s.last() == b);
            assert(strokes_in_all(s.drop_last(), offs) =~= Seq::empty());
            assert(strokes_in_all(s, offs) == strokes_in_all(s.drop_last(), offs) + strokes_in(*s.last(), offs));
            assert(strokes_in_all(s, offs) =~= strokes_in(*b, offs));
            assert(parts(b) == s);
        },
    }
}

/// A style node renders its child with the style merged over the enclosing
/// one: the inner style wins, attribute by attribute.
pub proof fn law_styled_renders_child_with_merged_style<C, N, D, G, P>(
    style: Style<C, N, D, G>,
    child: Arc<DiagramNode<Style<C, N, D, G>, P>>,
    st: Style<C, N, D, G>,
    offs: Seq<Vec2>,
)
    ensures
        draws(DiagramNode::Styled { style, child }, st, offs) == draws(*child, merged(st, style), offs),
{
}

/// The empty diagram renders nothing and has no stroked trails.
pub proof fn law_empty_renders_nothing<C, N, D, G, P>(st: Style<C, N, D, G>, offs: Seq<Vec2>)
    ensures
        draws(DiagramNode::<Style<C, N, D, G>, P>::Empty, st, offs) == Seq::<
            (Option<P>, Option<(Point, Seq<Vec2>)>, Seq<Vec2>, Style<C, N, D, G>),
        >::empty(),
        strokes_in(DiagramNode::<Style<C, N, D, G>, P>::Empty, offs) == Seq::<(Point, Seq<Vec2>, Seq<Vec2>)>::empty(),
{
}

/// The node that `a` holds.
pub open spec fn node_in<S, P>(a: Arc<DiagramNode<S, P>>) -> DiagramNode<S, P> {
    *a
}

/// The polyline steps among drawing steps, in order, each as (start,
/// segments, moves) of the trail it draws.
pub open spec fn polylines_of<P, St>(
    ds: Seq<(Option<P>, Option<(Point, Seq<Vec2>)>, Seq<Vec2>, St)>,
) -> Seq<(Point, Seq<Vec2>, Seq<Vec2>)>
    decreases ds.len(),
{
    if ds.len() == 0 {
        Seq::empty()
    } else {
        match ds.last().1 {
            Some(t) => polylines_of(ds.drop_last()).push((t.0, t.1, ds.last().2)),
            None => polylines_of(ds.drop_last()),
        }
    }
}

/// The stroked trails that have segments, in order.
pub open spec fn with_segments(ss: Seq<(Point, Seq<Vec2>, Seq<Vec2>)>) -> Seq<(Point, Seq<Vec2>, Seq<Vec2>)>
    decreases ss.len(),
{
    if ss.len() == 0 {
        Seq::empty()
    } else if ss.last().1.len() > 0 {
        with_segments(ss.drop_last()).push(ss.last())
    } else {
        with_segments(ss.drop_last())
    }
}

proof fn lemma_polylines_of_concat<P, St>(
    a: Seq<(Option<P>, Option<(Point, Seq<Vec2>)>, Seq<Vec2>, St)>,
    b: Seq<(Option<P>, Option<(Point, Seq<Vec2>)>, Seq<Vec2>, St)>,
)
    ensures
        polylines_of(a + b) == polylines_of(a) + polylines_of(b),
    decreases b.len(),
{
    if b.len() == 0 {
        assert(a + b =~= a);
        assert(polylines_of(a) + polylines_of(b) =~= polylines_of(a));
    } else {
        assert((a + b).drop_last() =~= a + b.drop_last());
        assert((a + b).last() == b.last());
        lemma_polylines_of_concat(a, b.drop_last());
        assert(polylines_of(a + b) =~= polylines_of(a) + polylines_of(b));
    }
}

proof fn lemma_with_segments_concat(
    a: Seq<(Point, Seq<Vec2>, Seq<Vec2>)>,
    b: Seq<(Point, Seq<Vec2>, Seq<Vec2>)>,
)
    ensures
        with_segments(a + b) == with_segments(a) + with_segments(b),
    decreases b.len(),
{
    if b.len() == 0 {
        assert(a + b =~= a);
        assert(with_segments(a) + with_segments(b) =~= with_segments(a));
    } else {
        assert((a + b).drop_last() =~= a + b.drop_last());
        assert((a + b).last() == b.last());
        lemma_with_segments_concat(a, b.drop_last());
        assert(with_segments(a + b) =~= with_segments(a) + with_segments(b));
    }
}

/// Rendering and collecting points see the same trails: the polyline steps
/// of a node, in order, are its stroked trails that have segments, each with
/// the same start, segments and moves above it, whatever the style.
pub proof fn law_polylines_are_strokes<C, N, D, G, P>(
    n: DiagramNode<Style<C, N, D, G>, P>,
    st: Style<C, N, D, G>,
    offs: Seq<Vec2>,
)
    ensures
        polylines_of(draws(n, st, offs)) == with_segments(strokes_in(n, offs)),
    decreases n, 1nat,
{
    let no_steps = Seq::<(Option<P>, Option<(Point, Seq<Vec2>)>, Seq<Vec2>, Style<C, N, D, G>)>::empty();
    let no_strokes = Seq::<(Point, Seq<Vec2>, Seq<Vec2>)>::empty();
    assert(polylines_of(no_steps) == no_strokes);
    assert(with_segments(no_strokes) == no_strokes);
    match n {
        DiagramNode::Empty => {
            assert(draws(n, st, offs) == no_steps);
            assert(strokes_in(n, offs) == no_strokes);
        },
        DiagramNode::Shape(p) => {
            let ds = draws(n, st, offs);
            assert(ds.drop_last() =~= no_steps);
            assert(polylines_of(ds) == polylines_of(ds.drop_last()));
            assert(strokes_in(n, offs) == no_strokes);
        },
        DiagramNode::StrokedTrail { trail, start } => {
            let ss = strokes_in(n, offs);
            assert(ss.drop_last() =~= no_strokes);
            let ds = draws(n, st, offs);
            if trail@.len() > 0 {
                assert(ds.drop_last() =~= no_steps);
                assert(polylines_of(ds) == polylines_of(ds.drop_last()).push((start, trail@, offs)));
                assert(with_segments(ss) == with_segments(ss.drop_last()).push(ss.last()));
                assert(polylines_of(ds) =~= with_segments(ss));
            } else {
                assert(ds == no_steps);
                assert(with_segments(ss) == with_segments(ss.drop_last()));
            }
        },
        DiagramNode::Styled { style, child } => {
            law_polylines_are_strokes(node_in(child), merged(st, style), offs);
        },
        DiagramNode::Translated { offset, child } => {
            law_polylines_are_strokes(node_in(child), st, offs.push(offset));
        },
        DiagramNode::Group(ch) => {
            lemma_polylines_are_strokes_all(ch@, st, offs);
        },
    }
}

proof fn lemma_polylines_are_strokes_all<C, N, D, G, P>(
    ns: Seq<Arc<DiagramNode<Style<C, N, D, G>, P>>>,
    st: Style<C, N, D, G>,
    offs: Seq<Vec2>,
)
    ensures
        polylines_of(draws_all(ns, st, offs)) == with_segments(strokes_in_all(ns, offs)),
    decreases ns, 0nat,
{
    if ns.len() > 0 {
        lemma_polylines_are_strokes_all(ns.drop_last(), st, offs);
        law_polylines_are_strokes(node_in(ns.last()), st, offs);
        lemma_polylines_of_concat(draws_all(ns.drop_last(), st, offs), draws_at(ns, ns.len() - 1, st, offs));
        lemma_with_segments_concat(strokes_in_all(ns.drop_last(), offs), strokes_at(ns, ns.len() - 1, offs));
    }
}

/// The moves `m` start with the moves `offs`.
pub open spec fn moves_extend(offs: Seq<Vec2>, m: Seq<Vec2>) -> bool {
    &&& offs.len() <= m.len()
    &&& forall|j: int| 0 <= j < offs.len() ==> m[j] == offs[j]
}

/// Every step of `ds` is below at least the moves `offs`.
pub open spec fn steps_below<P, St>(ds: Seq<(Option<P>, Option<(Point, Seq<Vec2>)>, Seq<Vec2>, St)>, offs: Seq<Vec2>) -> bool {
    forall|i: int| 0 <= i < ds.len() ==> moves_extend(offs, #[trigger] ds[i].2)
}

/// Every stroked trail of `ss` is below at least the moves `offs`.
pub open spec fn strokes_below(ss: Seq<(Point, Seq<Vec2>, Seq<Vec2>)>, offs: Seq<Vec2>) -> bool {
    forall|i: int| 0 <= i < ss.len() ==> moves_extend(offs, #[trigger] ss[i].2)
}

/// Moves are never lost: every drawing step and every stroked trail of a node
/// is below all the moves above the node, in order.
pub proof fn law_moves_reach_every_step<C, N, D, G, P>(
    n: DiagramNode<Style<C, N, D, G>, P>,
    st: Style<C, N, D, G>,
    offs: Seq<Vec2>,
)
    ensures
        steps_below(draws(n, st, offs), offs),
        strokes_below(strokes_in(n, offs), offs),
    decreases n, 1nat,
{
    match n {
        DiagramNode::Styled { style, child } => {
            law_moves_reach_every_step(node_in(child), merged(st, style), offs);
        },
        DiagramNode::Translated { offset, child } => {
            let o2 = offs.push(offset);
            law_moves_reach_every_step(node_in(child), st, o2);
            let ds = draws(n, st, offs);
            let ss = strokes_in(n, offs);
            assert forall|i: int| 0 <= i < ds.len() implies moves_extend(offs, #[trigger] ds[i].2) by {
                assert(moves_extend(o2, ds[i].2));
                assert forall|j: int| 0 <= j < offs.len() implies ds[i].2[j] == offs[j] by {
                    assert(o2[j] == offs[j]);
                }
            }
            assert forall|i: int| 0 <= i < ss.len() implies moves_extend(offs, #[trigger] ss[i].2) by {
                assert(moves_extend(o2, ss[i].2));
                assert forall|j: int| 0 <= j < offs.len() implies ss[i].2[j] == offs[j] by {
                    assert(o2[j] == offs[j]);
                }
            }
        },
        DiagramNode::Group(ch) => {
            lemma_moves_reach_every_step_all(ch@, st, offs);
        },
        _ => {},
    }
}

proof fn lemma_moves_reach_every_step_all<C, N, D, G, P>(
    ns: Seq<Arc<DiagramNode<Style<C, N, D, G>, P>>>,
    st: Style<C, N, D, G>,
    offs: Seq<Vec2>,
)
    ensures
        steps_below(draws_all(ns, st, offs), offs),
        strokes_below(strokes_in_all(ns, offs), offs),
    decreases ns, 0nat,
{
    if ns.len() > 0 {
        lemma_moves_reach_every_step_all(ns.drop_last(), st, offs);
        law_moves_reach_every_step(node_in(ns.last()), st, offs);
        let (da, db) = (draws_all(ns.drop_last(), st, offs), draws_at(ns, ns.len() - 1, st, offs));
        let (sa, sb) = (strokes_in_all(ns.drop_last(), offs), strokes_at(ns, ns.len() - 1, offs));
        assert forall|i: int| 0 <= i < (da + db).len() implies moves_extend(offs, #[trigger] (da + db)[i].2) by {
            if i < da.len() {
                assert((da + db)[i] == da[i]);
            } else {
                assert((da + db)[i] == db[i - da.len()]);
            }
        }
        assert forall|i: int| 0 <= i < (sa + sb).len() implies moves_extend(offs, #[trigger] (sa + sb)[i].2) by {
            if i < sa.len() {
                assert((sa + sb)[i] == sa[i]);
            } else {
                assert((sa + sb)[i] == sb[i - sa.len()]);
            }
        }
    }
}

/// A move applies to everything below it: every drawing step and every
/// stroked trail of a moved node is below the moves above it followed by
/// that move.
pub proof fn law_move_applies_below<C, N, D, G, P>(
    offset: Vec2,
    child: Arc<DiagramNode<Style<C, N, D, G>, P>>,
    st: Style<C, N, D, G>,
    offs: Seq<Vec2>,
)
    ensures
        steps_below(draws(DiagramNode::Translated { offset, child }, st, offs), offs.push(offset)),
        strokes_below(strokes_in(DiagramNode::<Style<C, N, D, G>, P>::Translated { offset, child }, offs), offs.push(offset)),
{
    law_moves_reach_every_step(node_in(child), st, offs.push(offset));
}

/// Styling does not change the geometry: a styled node has the stroked
/// trails of its child.
pub proof fn law_styling_keeps_strokes<S, P>(style: S, child: Arc<DiagramNode<S, P>>, offs: Seq<Vec2>)
    ensures
        strokes_in(DiagramNode::Styled { style, child }, offs) == strokes_in(node_in(child), offs),
{
}

/// Every step of `ds` carries the style `st` with some inner style merged
/// over it.
pub open spec fn steps_under<P, C, N, D, G>(
    ds: Seq<(Option<P>, Option<(Point, Seq<Vec2>)>, Seq<Vec2>, Style<C, N, D, G>)>,
    st: Style<C, N, D, G>,
) -> bool {
    forall|i: int| 0 <= i < ds.len() ==> exists|inner: Style<C, N, D, G>| (#[trigger] ds[i]).3 == merged(st, inner)
}

/// The enclosing style reaches every drawing step: each step's style is the
/// style it is rendered under, with the styles between them merged over it.
pub proof fn law_base_style_reaches_every_step<C, N, D, G, P>(
    n: DiagramNode<Style<C, N, D, G>, P>,
    st: Style<C, N, D, G>,
    offs: Seq<Vec2>,
)
    ensures
        steps_under(draws(n, st, offs), st),
    decreases n, 1nat,
{
    let ds = draws(n, st, offs);
    match n {
        DiagramNode::Shape(p) => {
            law_unstyled_is_merge_identity(st);
            assert(ds[0].3 == merged(st, unstyled()));
        },
        DiagramNode::StrokedTrail { trail, start } => {
            law_unstyled_is_merge_identity(st);
            if trail@.len() > 0 {
                assert(ds[0].3 == merged(st, unstyled()));
            }
        },
        DiagramNode::Styled { style, child } => {
            let st2 = merged(st, style);
            law_base_style_reaches_every_step(node_in(child), st2, offs);
            assert forall|i: int| 0 <= i < ds.len() implies exists|inner: Style<C, N, D, G>| (#[trigger] ds[i]).3 == merged(st, inner) by {
                let inner = choose|inner: Style<C, N, D, G>| ds[i].3 == merged(st2, inner);
                law_merge_associative(st, style, inner);
                assert(ds[i].3 == merged(st, merged(style, inner)));
            }
        },
        DiagramNode::Translated { offset, child } => {
            law_base_style_reaches_every_step(node_in(child), st, offs.push(offset));
        },
        DiagramNode::Group(ch) => {
            lemma_base_style_reaches_every_step_all(ch@, st, offs);
        },
        DiagramNode::Empty => {},
    }
}

proof fn lemma_base_style_reaches_every_step_all<C, N, D, G, P>(
    ns: Seq<Arc<DiagramNode<Style<C, N, D, G>, P>>>,
    st: Style<C, N, D, G>,
    offs: Seq<Vec2>,
)
    ensures
        steps_under(draws_all(ns, st, offs), st),
    decreases ns, 0nat,
{
    if ns.len() > 0 {
        lemma_base_style_reaches_every_step_all(ns.drop_last(), st, offs);
        law_base_style_reaches_every_step(node_in(ns.last()), st, offs);
        let (da, db) = (draws_all(ns.drop_last(), st, offs), draws_at(ns, ns.len() - 1, st, offs));
        assert forall|i: int| 0 <= i < (da + db).len() implies exists|inner: Style<C, N, D, G>| (#[trigger] (da + db)[i]).3 == merged(st, inner) by {
            if i < da.len() {
                assert((da + db)[i] == da[i]);
            } else {
                assert((da + db)[i] == db[i - da.len()]);
            }
        }
    }
}

/// A shape under a style is drawn with that style merged over the enclosing
/// one, below the same moves.
pub proof fn law_styled_shape_step<C, N, D, G, P>(
    style: Style<C, N, D, G>,
    child: Arc<DiagramNode<Style<C, N, D, G>, P>>,
    p: P,
    base: Style<C, N, D, G>,
    offs: Seq<Vec2>,
)
    requires
        node_in(child) == DiagramNode::<Style<C, N, D, G>, P>::Shape(p),
    ensures
        draws(DiagramNode::Styled { style, child }, base, offs) == seq![
            (Some(p), None::<(Point, Seq<Vec2>)>, offs, merged(base, style)),
        ],
{
    let st = merged(base, style);
    assert(draws(DiagramNode::Styled { style, child }, base, offs) == draws(node_in(child), st, offs));
    assert(draws(DiagramNode::<Style<C, N, D, G>, P>::Shape(p), st, offs) == seq![
        (Some(p), None::<(Point, Seq<Vec2>)>, offs, st),
    ]);
}

/// Joining with spaces puts exactly one space between consecutive parts:
/// joining two nonempty runs one after the other is joining each and putting
/// one space between them.
pub proof fn law_space_joined_concat(a: Seq<Seq<char>>, b: Seq<Seq<char>>)
    requires
        a.len() > 0,
        b.len() > 0,
    ensures
        space_joined(a + b) == space_joined(a) + " "@ + space_joined(b),
    decreases b.len(),
{
    assert((a + b).drop_last() =~= a + b.drop_last());
    assert((a + b).last() == b.last());
    if b.len() == 1 {
        assert(b.drop_last() =~= Seq::<Seq<char>>::empty());
        assert(a + b.drop_last() =~= a);
        assert(space_joined(b) == b[0]);
    } else {
        law_space_joined_concat(a, b.drop_last());
        assert(space_joined(a + b) =~= space_joined(a) + " "@ + space_joined(b));
    }
}

/// One part joined with spaces is that part.
pub proof fn law_space_joined_single(x: Seq<char>)
    ensures
        space_joined(seq![x]) == x,
{
}

} // verus!
