//! The kurbo geometry that the rest of the crate carries, and the few kurbo
//! operations that it calls.
//!
//! The coordinates of these values are floating point numbers. Verus sees the
//! values as opaque. A floating point operation is not a function of its
//! arguments alone (the sign and payload of a NaN result are not fixed, nor
//! is which of two equal zeros `min` and `max` give), so each arithmetic
//! operation that the crate uses has here a relation between its arguments
//! and a result, and the wrapper that makes the call states that its result
//! is in that relation with its arguments. Nothing more is stated of the
//! relations: they only tie each result to the call that produced it.

use vstd::prelude::*;


verus! {

#[verifier::external_type_specification]
#[verifier::external_body]
pub struct ExVec2(kurbo::Vec2);

#[verifier::external_type_specification]
#[verifier::external_body]
pub struct ExPoint(kurbo::Point);

#[verifier::external_type_specification]
#[verifier::external_body]
pub struct ExRect(kurbo::Rect);

/// `r` is an outcome of kurbo's `a + b` on two vectors (component-wise).
pub uninterp spec fn is_vec2_sum(a: kurbo::Vec2, b: kurbo::Vec2, r: kurbo::Vec2) -> bool;

/// `r` is an outcome of kurbo's `p + v`: `p` displaced by `v`.
pub uninterp spec fn is_point_displaced(p: kurbo::Point, v: kurbo::Vec2, r: kurbo::Point) -> bool;

/// The vector from the origin to `p` (kurbo's `Point::to_vec2`, which copies
/// the two coordinates).
pub uninterp spec fn point_as_vec2(p: kurbo::Point) -> kurbo::Vec2;

/// `r` is an outcome of kurbo's `Rect::union` of `a` and `b`.
pub uninterp spec fn is_rect_union(a: kurbo::Rect, b: kurbo::Rect, r: kurbo::Rect) -> bool;

/// `s` is an outcome of kurbo's `Rect::union_pt`: `r` widened to include `p`.
pub uninterp spec fn is_rect_union_point(r: kurbo::Rect, p: kurbo::Point, s: kurbo::Rect) -> bool;

/// `r` is an outcome of kurbo's `Rect::from_points(p, p)`, the zero-area
/// rectangle at `p`.
pub uninterp spec fn is_rect_at_point(p: kurbo::Point, r: kurbo::Rect) -> bool;

/// `s` is an outcome of kurbo's `Rect + Vec2`: `r` moved by `v`.
pub uninterp spec fn is_rect_displaced(r: kurbo::Rect, v: kurbo::Vec2, s: kurbo::Rect) -> bool;

/// kurbo's `impl Add for Vec2`: adds the two vectors component by component.
/// The contract states that the result is an outcome of that sum.
#[verifier::external_body]
pub(crate) fn add_vec2(a: kurbo::Vec2, b: kurbo::Vec2) -> (r: kurbo::Vec2)
    ensures
        is_vec2_sum(a, b, r),
{
    a + b
}

/// kurbo's `impl Add<Vec2> for Point`: adds `v` to `p` component by component.
/// The contract states that the result is an outcome of that sum.
#[verifier::external_body]
pub(crate) fn displace_point(p: kurbo::Point, v: kurbo::Vec2) -> (r: kurbo::Point)
    ensures
        is_point_displaced(p, v, r),
{
    p + v
}

/// kurbo's `Point::to_vec2`: the vector with the coordinates of `p`, copied
/// bit for bit, so it is a function of `p` alone. The contract names the
/// result.
#[verifier::external_body]
pub(crate) fn point_to_vec2(p: kurbo::Point) -> (r: kurbo::Vec2)
    ensures
        r == point_as_vec2(p),
{
    p.to_vec2()
}

/// kurbo's `Rect::union`: component-wise minimum of the lower corners and
/// maximum of the upper corners. The contract states that the result is an
/// outcome of that union.
#[verifier::external_body]
pub(crate) fn union_rects(a: kurbo::Rect, b: kurbo::Rect) -> (r: kurbo::Rect)
    ensures
        is_rect_union(a, b, r),
{
    a.union(b)
}

/// kurbo's `Rect::union_pt`: widens `r` to include `p`. The contract states
/// that the result is an outcome of that widening.
#[verifier::external_body]
pub(crate) fn union_rect_point(r: kurbo::Rect, p: kurbo::Point) -> (s: kurbo::Rect)
    ensures
        is_rect_union_point(r, p, s),
{
    r.union_pt(p)
}

/// kurbo's `Rect::from_points`, called with `p` twice: the zero-area
/// rectangle at `p`. The contract states that the result is an outcome of
/// that call.
#[verifier::external_body]
pub(crate) fn rect_from_point(p: kurbo::Point) -> (r: kurbo::Rect)
    ensures
        is_rect_at_point(p, r),
{
    kurbo::Rect::from_points(p, p)
}

/// kurbo's `impl Add<Vec2> for Rect`: moves both corners by `v`. The contract
/// states that the result is an outcome of that move.
#[verifier::external_body]
pub(crate) fn displace_rect(r: kurbo::Rect, v: kurbo::Vec2) -> (s: kurbo::Rect)
    ensures
        is_rect_displaced(r, v, s),
{
    r + v
}

/// kurbo's `Point::ORIGIN`, the point with both coordinates `0.0`. The
/// contract states nothing of the value: its coordinates are floating point
/// numbers, which the crate's specifications do not hold. Callers speak of it
/// as the outcome of this call ([`is_kurbo_origin`]).
#[verifier::external_body]
pub(crate) fn origin() -> (p: kurbo::Point) {
    kurbo::Point::ORIGIN
}

/// kurbo's `Vec2::ZERO`, the vector with both coordinates `0.0`. The contract
/// states nothing of the value, for the same reason as [`origin`]. Callers
/// speak of it as the outcome of this call ([`is_kurbo_zero`]).
#[verifier::external_body]
pub(crate) fn zero_vec2() -> (v: kurbo::Vec2) {
    kurbo::Vec2::ZERO
}

/// `p` is what [`origin`] gives: kurbo's `Point::ORIGIN`.
pub closed spec fn is_kurbo_origin(p: kurbo::Point) -> bool {
    call_ensures(origin, (), p)
}

/// `v` is what [`zero_vec2`] gives: kurbo's `Vec2::ZERO`.
pub closed spec fn is_kurbo_zero(v: kurbo::Vec2) -> bool {
    call_ensures(zero_vec2, (), v)
}

/// What a call of [`origin`] gave is kurbo's origin point.
pub(crate) proof fn lemma_is_kurbo_origin(p: kurbo::Point)
    requires
        call_ensures(origin, (), p),
    ensures
        is_kurbo_origin(p),
{
}

/// What a call of [`zero_vec2`] gave is kurbo's zero vector.
pub(crate) proof fn lemma_is_kurbo_zero(v: kurbo::Vec2)
    requires
        call_ensures(zero_vec2, (), v),
    ensures
        is_kurbo_zero(v),
{
}

/// kurbo's `Clone` for `Vec2`, derived beside `Copy`: the clone is a copy.
pub assume_specification[ <kurbo::Vec2 as std::clone::Clone>::clone ](v: &kurbo::Vec2) -> (r: kurbo::Vec2)
    ensures
        r == *v,
;

/// kurbo's `Clone` for `Point`, derived beside `Copy`: the clone is a copy.
pub assume_specification[ <kurbo::Point as std::clone::Clone>::clone ](p: &kurbo::Point) -> (r: kurbo::Point)
    ensures
        r == *p,
;

} // verus!
