//! Layout combinators that need no arithmetic of their own: superimposing
//! two diagrams, and placing diagrams at explicit points.

use vstd::prelude::*;

use kurbo::Point;
use crate::diagram::{Diagram, DiagramNode, drawn, parts};
use crate::envelope::{is_translated, is_union_of};
use crate::geom::{point_as_vec2, point_to_vec2};

verus! {

/// Superimposes two diagrams (origins coincide; `d2` on top). Same as
/// `d1 + d2`.
pub fn atop<S, P>(d1: Diagram<S, P>, d2: Diagram<S, P>) -> (d: Diagram<S, P>)
    ensures
        d.spec_node() matches DiagramNode::Group(ch) && ch@ == parts(d1.spec_root()) + parts(
            d2.spec_root(),
        ),
        drawn(d.spec_node()) == drawn(d1.spec_node()) + drawn(d2.spec_node()),
        is_union_of(d1.spec_bbox(), d2.spec_bbox(), d.spec_bbox()),
{
    d1 + d2
}

/// What placing each diagram at its point draws: each one moved by the vector
/// to its point, in order.
pub open spec fn placed_drawn<S, P>(items: Seq<(Point, Diagram<S, P>)>) -> Seq<DiagramNode<S, P>>
    decreases items.len(),
{
    if items.len() == 0 {
        Seq::empty()
    } else {
        placed_drawn(items.drop_last()) + seq![
            DiagramNode::Translated {
                offset: point_as_vec2(items.last().0),
                child: items.last().1.spec_root(),
            },
        ]
    }
}

/// The `i`th placing step: envelope `i + 1` is the union of envelope `i` and
/// the envelope of item `i` moved to its point.
pub open spec fn placing_step<S, P>(
    items: Seq<(Point, Diagram<S, P>)>,
    accs: Seq<Option<kurbo::Rect>>,
    i: int,
) -> bool {
    exists|moved: Option<kurbo::Rect>|
        #[trigger] is_translated(items[i].1.spec_bbox(), point_as_vec2(items[i].0), moved)
            && is_union_of(accs[i], moved, accs[i + 1])
}

/// `accs` are the envelopes of the prefixes of the placed diagrams: the first
/// is empty, and each next one adds the next diagram moved to its point.
pub open spec fn placing<S, P>(items: Seq<(Point, Diagram<S, P>)>, accs: Seq<Option<kurbo::Rect>>) -> bool {
    &&& accs.len() == items.len() + 1
    &&& accs[0] is None
    &&& forall|i: int| 0 <= i < items.len() ==> #[trigger] placing_step(items, accs, i)
}

/// `e` is the envelope of the placed diagrams: the union, from the first to
/// the last, of each envelope moved to its point.
pub open spec fn is_placed_bbox<S, P>(items: Seq<(Point, Diagram<S, P>)>, e: Option<kurbo::Rect>) -> bool {
    exists|accs: Seq<Option<kurbo::Rect>>| #[trigger] placing(items, accs) && e == accs.last()
}

/// Places each diagram at its point (moving it by the vector from the origin
/// to that point) and superimposes them in order, the last on top.
pub fn position<S, P>(placed: Vec<(Point, Diagram<S, P>)>) -> (d: Diagram<S, P>)
    ensures
        drawn(d.spec_node()) == placed_drawn(placed@),
        is_placed_bbox(placed@, d.spec_bbox()),
{
    let ghost items = placed@;
    let mut acc: Diagram<S, P> = Diagram::empty();
    let ghost mut k: int = 0;
    let ghost mut accs: Seq<Option<kurbo::Rect>> = seq![None];
    for item in it: placed
        invariant
            items == it.seq(),
            k == it.index(),
            0 <= k <= items.len(),
            drawn(acc.spec_node()) == placed_drawn(items.subrange(0, k)),
            placing(items.subrange(0, k), accs),
            acc.spec_bbox() == accs.last(),
    {
        let (pt, d) = item;
        let v = point_to_vec2(pt);
        let moved = d.translate_by(v);
        let ghost prev = acc.spec_bbox();
        acc = acc + moved;
        proof {
            assert(items.subrange(0, k + 1).drop_last() =~= items.subrange(0, k));
            assert(items.subrange(0, k + 1).last() == items[k]);
            let old_accs = accs;
            accs = accs.push(acc.spec_bbox());
            let sub = items.subrange(0, k + 1);
            assert forall|j: int| 0 <= j < sub.len() implies #[trigger] placing_step(sub, accs, j) by {
                if j < k {
                    assert(placing_step(items.subrange(0, k), old_accs, j));
                    let w = choose|moved: Option<kurbo::Rect>|
                        #[trigger] is_translated(
                            items.subrange(0, k)[j].1.spec_bbox(),
                            point_as_vec2(items.subrange(0, k)[j].0),
                            moved,
                        ) && is_union_of(old_accs[j], moved, old_accs[j + 1]);
                    assert(is_translated(sub[j].1.spec_bbox(), point_as_vec2(sub[j].0), w));
                } else {
                    assert(is_translated(sub[j].1.spec_bbox(), point_as_vec2(sub[j].0), moved.spec_bbox()));
                }
            }
            k = k + 1;
        }
    }
    proof {
        assert(items.subrange(0, k) =~= items);
    }
    acc
}

} // verus!
