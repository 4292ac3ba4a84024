//! Styles: partial sets of rendering attributes that are merged from the
//! outside in.
//!
//! Every attribute is optional, so that partial styles can be accumulated and
//! resolved against an outer default. The attribute types are parameters:
//! `C` for colours, `N` for numeric widths and opacities, `D` for dash
//! patterns and `G` for gradient fills.

use vstd::prelude::*;

verus! {

/// Rendering style of a diagram element; `None` leaves an attribute to the
/// enclosing style.
#[derive(Clone, Debug)]
pub struct Style<C, N, D, G> {
    pub fill_color: Option<C>,
    pub stroke_color: Option<C>,
    pub stroke_width: Option<N>,
    pub opacity: Option<N>,
    pub dash: Option<D>,
    pub bold: Option<bool>,
    /// Gradient fill; overrides `fill_color` when present.
    pub fill_gradient: Option<G>,
    /// CSS `font-family` value for text.
    pub font_family: Option<String>,
}

/// `inner` if it is set, else `outer`.
pub open spec fn pick<T>(inner: Option<T>, outer: Option<T>) -> Option<T> {
    if inner is Some {
        inner
    } else {
        outer
    }
}

/// The style with every attribute unset.
pub open spec fn unstyled<C, N, D, G>() -> Style<C, N, D, G> {
    Style {
        fill_color: None,
        stroke_color: None,
        stroke_width: None,
        opacity: None,
        dash: None,
        bold: None,
        fill_gradient: None,
        font_family: None,
    }
}

/// `inner` merged over `outer`: each attribute set in `inner` wins, the
/// others come from `outer`.
pub open spec fn merged<C, N, D, G>(outer: Style<C, N, D, G>, inner: Style<C, N, D, G>) -> Style<
    C,
    N,
    D,
    G,
> {
    Style {
        fill_color: pick(inner.fill_color, outer.fill_color),
        stroke_color: pick(inner.stroke_color, outer.stroke_color),
        stroke_width: pick(inner.stroke_width, outer.stroke_width),
        opacity: pick(inner.opacity, outer.opacity),
        dash: pick(inner.dash, outer.dash),
        bold: pick(inner.bold, outer.bold),
        fill_gradient: pick(inner.fill_gradient, outer.fill_gradient),
        font_family: pick(inner.font_family, outer.font_family),
    }
}

/// `b` is `a` or a clone of it: both unset, or both set to values of which
/// the second is a clone of the first.
pub open spec fn option_cloned<T: Clone>(a: Option<T>, b: Option<T>) -> bool {
    match (a, b) {
        (None, None) => true,
        (Some(x), Some(y)) => cloned(x, y),
        _ => false,
    }
}

/// `b` is `a` with its dash pattern and gradient possibly cloned; every other
/// attribute is the same.
pub open spec fn style_cloned<C, N, D: Clone, G: Clone>(
    a: Style<C, N, D, G>,
    b: Style<C, N, D, G>,
) -> bool {
    &&& b.fill_color == a.fill_color
    &&& b.stroke_color == a.stroke_color
    &&& b.stroke_width == a.stroke_width
    &&& b.opacity == a.opacity
    &&& option_cloned(a.dash, b.dash)
    &&& b.bold == a.bold
    &&& option_cloned(a.fill_gradient, b.fill_gradient)
    &&& b.font_family == a.font_family
}

fn pick_copy<T: Copy>(inner: Option<T>, outer: Option<T>) -> (r: Option<T>)
    ensures
        r == pick(inner, outer),
{
    match inner {
        Some(x) => Some(x),
        None => outer,
    }
}

fn pick_clone<T: Clone>(inner: &Option<T>, outer: &Option<T>) -> (r: Option<T>)
    ensures
        option_cloned(pick(*inner, *outer), r),
{
    match inner {
        Some(x) => Some(x.clone()),
        None => match outer {
            Some(y) => Some(y.clone()),
            None => None,
        },
    }
}

fn pick_string(inner: &Option<String>, outer: &Option<String>) -> (r: Option<String>)
    ensures
        r == pick(*inner, *outer),
{
    match inner {
        Some(x) => Some(x.clone()),
        None => match outer {
            Some(y) => Some(y.clone()),
            None => None,
        },
    }
}

impl<C: Copy, N: Copy, D: Clone, G: Clone> Style<C, N, D, G> {
    /// Merges `self` (the outer default) with `inner` (the more specific
    /// style): each attribute present in `inner` takes precedence.
    pub fn merge_over(&self, inner: &Style<C, N, D, G>) -> (s: Style<C, N, D, G>)
        ensures
            style_cloned(merged(*self, *inner), s),
    {
        Style {
            fill_color: pick_copy(inner.fill_color, self.fill_color),
            stroke_color: pick_copy(inner.stroke_color, self.stroke_color),
            stroke_width: pick_copy(inner.stroke_width, self.stroke_width),
            opacity: pick_copy(inner.opacity, self.opacity),
            dash: pick_clone(&inner.dash, &self.dash),
            bold: pick_copy(inner.bold, self.bold),
            fill_gradient: pick_clone(&inner.fill_gradient, &self.fill_gradient),
            font_family: pick_string(&inner.font_family, &self.font_family),
        }
    }
}

impl<C, N, D, G> Default for Style<C, N, D, G> {
    /// The style with every attribute unset.
    fn default() -> (s: Style<C, N, D, G>)
        ensures
            s == unstyled::<C, N, D, G>(),
    {
        Style {
            fill_color: None,
            stroke_color: None,
            stroke_width: None,
            opacity: None,
            dash: None,
            bold: None,
            fill_gradient: None,
            font_family: None,
        }
    }
}

/// Merging over the unset style, or merging the unset style over anything,
/// changes nothing.
pub proof fn law_unstyled_is_merge_identity<C, N, D, G>(s: Style<C, N, D, G>)
    ensures
        merged(unstyled(), s) == s,
        merged(s, unstyled()) == s,
{
}

/// Merging is associative: merging `c` over the merge of `b` over `a` is
/// merging the merge of `c` over `b` over `a`.
pub proof fn law_merge_associative<C, N, D, G>(
    a: Style<C, N, D, G>,
    b: Style<C, N, D, G>,
    c: Style<C, N, D, G>,
)
    ensures
        merged(merged(a, b), c) == merged(a, merged(b, c)),
{
}

/// Each attribute set in the inner style wins; each one it leaves unset comes
/// from the outer style.
pub proof fn law_inner_style_wins<C, N, D, G>(outer: Style<C, N, D, G>, inner: Style<C, N, D, G>)
    ensures
        inner.fill_color is Some ==> merged(outer, inner).fill_color == inner.fill_color,
        inner.fill_color is None ==> merged(outer, inner).fill_color == outer.fill_color,
        inner.stroke_color is Some ==> merged(outer, inner).stroke_color == inner.stroke_color,
        inner.stroke_color is None ==> merged(outer, inner).stroke_color == outer.stroke_color,
        inner.stroke_width is Some ==> merged(outer, inner).stroke_width == inner.stroke_width,
        inner.stroke_width is None ==> merged(outer, inner).stroke_width == outer.stroke_width,
        inner.opacity is Some ==> merged(outer, inner).opacity == inner.opacity,
        inner.opacity is None ==> merged(outer, inner).opacity == outer.opacity,
        inner.dash is Some ==> merged(outer, inner).dash == inner.dash,
        inner.dash is None ==> merged(outer, inner).dash == outer.dash,
        inner.bold is Some ==> merged(outer, inner).bold == inner.bold,
        inner.bold is None ==> merged(outer, inner).bold == outer.bold,
        inner.fill_gradient is Some ==> merged(outer, inner).fill_gradient == inner.fill_gradient,
        inner.fill_gradient is None ==> merged(outer, inner).fill_gradient == outer.fill_gradient,
        inner.font_family is Some ==> merged(outer, inner).font_family == inner.font_family,
        inner.font_family is None ==> merged(outer, inner).font_family == outer.font_family,
{
}

/// Merging a style over itself gives it back.
pub proof fn law_merge_idempotent<C, N, D, G>(s: Style<C, N, D, G>)
    ensures
        merged(s, s) == s,
{
}

/// `c` is `a` cloned once or twice: a clone of `a`, or a clone of a clone
/// of it.
pub open spec fn option_recloned<T: Clone>(a: Option<T>, c: Option<T>) -> bool {
    option_cloned(a, c) || exists|b: Option<T>| #[trigger] option_cloned(a, b) && option_cloned(b, c)
}

/// `b` is `a` with its dash pattern and gradient cloned once or twice; every
/// other attribute is the same.
pub open spec fn style_recloned<C, N, D: Clone, G: Clone>(
    a: Style<C, N, D, G>,
    b: Style<C, N, D, G>,
) -> bool {
    &&& b.fill_color == a.fill_color
    &&& b.stroke_color == a.stroke_color
    &&& b.stroke_width == a.stroke_width
    &&& b.opacity == a.opacity
    &&& option_recloned(a.dash, b.dash)
    &&& b.bold == a.bold
    &&& option_recloned(a.fill_gradient, b.fill_gradient)
    &&& b.font_family == a.font_family
}

/// What `merge_over` gives when the unset style is merged over `s`, or `s`
/// over the unset style, is `s` up to the cloning of its dash pattern and
/// gradient.
pub proof fn law_merge_over_unstyled<C, N, D: Clone, G: Clone>(
    s: Style<C, N, D, G>,
    r1: Style<C, N, D, G>,
    r2: Style<C, N, D, G>,
)
    requires
        style_cloned(merged(unstyled(), s), r1),
        style_cloned(merged(s, unstyled()), r2),
    ensures
        style_cloned(s, r1),
        style_cloned(s, r2),
{
}

/// What `merge_over` gives when `s` is merged over itself is `s` up to the
/// cloning of its dash pattern and gradient.
pub proof fn law_merge_over_idempotent<C, N, D: Clone, G: Clone>(s: Style<C, N, D, G>, r: Style<C, N, D, G>)
    requires
        style_cloned(merged(s, s), r),
    ensures
        style_cloned(s, r),
{
}

/// `merge_over` is associative up to cloning: merging `c` over what merging
/// `b` over `a` gave, and merging what merging `c` over `b` gave over `a`,
/// both give the merge of `c` over `b` over `a`, with its dash pattern and
/// gradient cloned once or twice.
pub proof fn law_merge_over_associative<C, N, D: Clone, G: Clone>(
    a: Style<C, N, D, G>,
    b: Style<C, N, D, G>,
    c: Style<C, N, D, G>,
    ab: Style<C, N, D, G>,
    ab_c: Style<C, N, D, G>,
    bc: Style<C, N, D, G>,
    a_bc: Style<C, N, D, G>,
)
    requires
        style_cloned(merged(a, b), ab),
        style_cloned(merged(ab, c), ab_c),
        style_cloned(merged(b, c), bc),
        style_cloned(merged(a, bc), a_bc),
    ensures
        style_recloned(merged(a, merged(b, c)), ab_c),
        style_recloned(merged(a, merged(b, c)), a_bc),
{
    let m = merged(a, merged(b, c));
    if c.dash is None {
        assert(option_cloned(m.dash, ab.dash) && option_cloned(ab.dash, ab_c.dash));
    }
    if c.fill_gradient is None {
        assert(option_cloned(m.fill_gradient, ab.fill_gradient) && option_cloned(ab.fill_gradient, ab_c.fill_gradient));
    }
    if bc.dash is Some {
        assert(option_cloned(m.dash, bc.dash) && option_cloned(bc.dash, a_bc.dash));
    }
    if bc.fill_gradient is Some {
        assert(option_cloned(m.fill_gradient, bc.fill_gradient) && option_cloned(bc.fill_gradient, a_bc.fill_gradient));
    }
}

} // verus!
