//! The [`Trail`] type: a sequence of linear segments forming a path.
//!
//! Trails form a monoid: the empty trail is the identity and `+` concatenates
//! two trails end to end.

use vstd::prelude::*;

use kurbo::{Point, Vec2};
use crate::geom::{add_vec2, displace_point, is_kurbo_zero, is_point_displaced, is_vec2_sum, lemma_is_kurbo_zero, zero_vec2};

verus! {

/// An ordered sequence of linear segments, each a displacement relative to
/// the end of the previous one.
#[derive(Clone, Debug)]
pub struct Trail {
    segments: Vec<Vec2>,
}

impl View for Trail {
    type V = Seq<Vec2>;

    open spec fn view(&self) -> Seq<Vec2> {
        self.spec_segments()
    }
}

/// The `i`th step of `pts` along `segs`: point `i + 1` is an outcome of
/// displacing point `i` by segment `i`.
pub open spec fn displaced_step(segs: Seq<Vec2>, pts: Seq<Point>, i: int) -> bool {
    is_point_displaced(pts[i], segs[i], pts[i + 1])
}

/// `pts` are the points reached from `start` by following `segs` in turn: the
/// first is `start` itself, and each next one is the previous displaced by
/// the next segment.
pub open spec fn follows(start: Point, segs: Seq<Vec2>, pts: Seq<Point>) -> bool {
    &&& pts.len() == segs.len() + 1
    &&& pts[0] == start
    &&& forall|i: int| 0 <= i < segs.len() ==> #[trigger] displaced_step(segs, pts, i)
}

/// The `i`th step of the running sums `acc` of `segs`: sum `i + 1` is an
/// outcome of adding segment `i` to sum `i`.
pub open spec fn sum_step(segs: Seq<Vec2>, acc: Seq<Vec2>, i: int) -> bool {
    is_vec2_sum(acc[i], segs[i], acc[i + 1])
}

/// `acc` are the running sums of `init` and the segments of `segs`, added from
/// the first to the last: the first is `init`.
pub open spec fn running_sums(init: Vec2, segs: Seq<Vec2>, acc: Seq<Vec2>) -> bool {
    &&& acc.len() == segs.len() + 1
    &&& acc[0] == init
    &&& forall|i: int| 0 <= i < segs.len() ==> #[trigger] sum_step(segs, acc, i)
}

/// `d` is the sum of `init` and every segment of `segs`, added from the first
/// to the last.
pub open spec fn sums_to(init: Vec2, segs: Seq<Vec2>, d: Vec2) -> bool {
    exists|acc: Seq<Vec2>| #[trigger] running_sums(init, segs, acc) && acc.last() == d
}

impl Trail {
    pub closed spec fn spec_segments(&self) -> Seq<Vec2> {
        self.segments@
    }

    /// The empty trail (no segments).
    pub fn empty() -> (t: Trail)
        ensures
            t@ == Seq::<Vec2>::empty(),
    {
        Trail { segments: Vec::new() }
    }

    /// A trail with the given segments, in order.
    pub fn from_segments(segments: Vec<Vec2>) -> (t: Trail)
        ensures
            t@ == segments@,
    {
        Trail { segments }
    }

    /// The segments of the trail, in order.
    pub fn segments(&self) -> (s: &[Vec2])
        ensures
            s@ == self@,
    {
        self.segments.as_slice()
    }

    /// Number of segments in the trail.
    pub fn len(&self) -> (n: usize)
        ensures
            n == self@.len(),
    {
        self.segments.len()
    }

    /// Whether the trail has no segments.
    pub fn is_empty(&self) -> (b: bool)
        ensures
            b <==> self@.len() == 0,
    {
        self.segments.len() == 0
    }
}

impl Trail {
    /// Every point of the trail from `start` on: the first is `start`, and
    /// each next one is the previous displaced by the next segment. The result
    /// has one more element than the trail has segments.
    pub fn to_points(&self, start: Point) -> (pts: Vec<Point>)
        ensures
            follows(start, self@, pts@),
    {
        let n = self.segments.len();
        let mut pts: Vec<Point> = Vec::new();
        let mut cur = start;
        pts.push(cur);
        let mut i: usize = 0;
        while i < n
            invariant
                n == self@.len(),
                i <= n,
                follows(start, self@.subrange(0, i as int), pts@),
                cur == pts@.last(),
            decreases n - i,
        {
            let seg = self.segments[i];
            let next = displace_point(cur, seg);
            let ghost old_pts = pts@;
            pts.push(next);
            proof {
                let segs = self@.subrange(0, i + 1);
                assert forall|j: int| 0 <= j < segs.len() implies #[trigger] displaced_step(
                    segs,
                    pts@,
                    j,
                ) by {
                    if j < i {
                        assert(displaced_step(self@.subrange(0, i as int), old_pts, j));
                    }
                }
            }
            cur = next;
            i = i + 1;
        }
        assert(self@.subrange(0, n as int) =~= self@);
        pts
    }

    /// The total displacement of the trail: kurbo's zero vector plus every
    /// segment, added from the first to the last.
    pub fn total_displacement(&self) -> (d: Vec2)
        ensures
            exists|zero: Vec2| is_kurbo_zero(zero) && #[trigger] sums_to(zero, self@, d),
    {
        let zero = zero_vec2();
        proof {
            lemma_is_kurbo_zero(zero);
        }
        let d = self.total_displacement_from(zero);
        assert(is_kurbo_zero(zero) && sums_to(zero, self@, d));
        d
    }

    /// `init` plus every segment of the trail, added from the first to the
    /// last.
    pub fn total_displacement_from(&self, init: Vec2) -> (d: Vec2)
        ensures
            sums_to(init, self@, d),
    {
        let n = self.segments.len();
        let mut acc = init;
        let ghost mut sums: Seq<Vec2> = seq![init];
        let mut i: usize = 0;
        while i < n
            invariant
                n == self@.len(),
                i <= n,
                running_sums(init, self@.subrange(0, i as int), sums),
                acc == sums.last(),
            decreases n - i,
        {
            let next = add_vec2(acc, self.segments[i]);
            proof {
                let old_sums = sums;
                sums = sums.push(next);
                let segs = self@.subrange(0, i + 1);
                assert forall|j: int| 0 <= j < segs.len() implies #[trigger] sum_step(
                    segs,
                    sums,
                    j,
                ) by {
                    if j < i {
                        assert(sum_step(self@.subrange(0, i as int), old_sums, j));
                    }
                }
            }
            acc = next;
            i = i + 1;
        }
        assert(self@.subrange(0, n as int) =~= self@);
        assert(running_sums(init, self@, sums));
        acc
    }
}

impl Default for Trail {
    /// The empty trail.
    fn default() -> (t: Trail)
        ensures
            t@ == Seq::<Vec2>::empty(),
    {
        Trail::empty()
    }
}

/// Concatenates two trails end to end.
impl core::ops::Add for Trail {
    type Output = Trail;

    fn add(self, other: Trail) -> (t: Trail)
        ensures
            t@ == self@ + other@,
    {
        let mut segments = self.segments;
        let mut rest = other.segments;
        segments.append(&mut rest);
        Trail { segments }
    }
}

impl vstd::std_specs::ops::AddSpecImpl for Trail {
    /// The contract of `add` is stated on the impl above, over the views of
    /// the trails.
    open spec fn obeys_add_spec() -> bool {
        false
    }

    open spec fn add_req(self, other: Trail) -> bool {
        true
    }

    open spec fn add_spec(self, other: Trail) -> Trail {
        Trail::concatenation(self, other)
    }
}

impl Trail {
    /// The trail whose segments are those of `a` followed by those of `b`.
    pub closed spec fn concatenation(a: Trail, b: Trail) -> Trail {
        Trail { segments: choose|v: Vec<Vec2>| v@ == a@ + b@ }
    }
}

/// Appends `other` to the end of the trail.
impl core::ops::AddAssign for Trail {
    fn add_assign(&mut self, other: Trail)
        ensures
            final(self)@ == old(self)@ + other@,
    {
        let mut rest = other.segments;
        self.segments.append(&mut rest);
    }
}

} // verus!

verus! {

/// The empty trail is a left and right identity for concatenation.
pub proof fn law_empty_trail_is_identity(t: Trail)
    ensures
        Seq::<Vec2>::empty() + t@ == t@,
        t@ + Seq::<Vec2>::empty() == t@,
{
    assert(Seq::<Vec2>::empty() + t@ =~= t@);
    assert(t@ + Seq::<Vec2>::empty() =~= t@);
}

/// Concatenation of trails is associative.
pub proof fn law_trail_concat_associative(a: Trail, b: Trail, c: Trail)
    ensures
        (a@ + b@) + c@ == a@ + (b@ + c@),
{
    assert((a@ + b@) + c@ =~= a@ + (b@ + c@));
}

/// The length of a concatenation is the sum of the lengths.
pub proof fn law_trail_concat_len(a: Trail, b: Trail)
    ensures
        (a@ + b@).len() == a@.len() + b@.len(),
{
}

/// The points of a concatenation are the points of the first trail followed
/// by those of the second, started where the first one ends (its first point,
/// that end, is not repeated); and the points of a concatenation split so.
pub proof fn law_points_of_concat(start: Point, a: Trail, b: Trail, pa: Seq<Point>, pb: Seq<Point>, p: Seq<Point>)
    ensures
        follows(start, a@, pa) && follows(pa.last(), b@, pb) ==> follows(
            start,
            a@ + b@,
            pa + pb.drop_first(),
        ),
        follows(start, a@ + b@, p) ==> follows(start, a@, p.subrange(0, a@.len() + 1int)) && follows(
            p[a@.len() as int],
            b@,
            p.subrange(a@.len() as int, p.len() as int),
        ),
{
    let (sa, sb) = (a@, b@);
    let n = sa.len();
    if follows(start, sa, pa) && follows(pa.last(), sb, pb) {
        let q = pa + pb.drop_first();
        assert forall|j: int| 0 <= j < (sa + sb).len() implies #[trigger] displaced_step(
            sa + sb,
            q,
            j,
        ) by {
            if j < n {
                assert(displaced_step(sa, pa, j));
            } else {
                assert(displaced_step(sb, pb, j - n));
            }
        }
    }
    if follows(start, sa + sb, p) {
        let p1 = p.subrange(0, n + 1int);
        let p2 = p.subrange(n as int, p.len() as int);
        assert forall|j: int| 0 <= j < sa.len() implies #[trigger] displaced_step(sa, p1, j) by {
            assert(displaced_step(sa + sb, p, j));
        }
        assert forall|j: int| 0 <= j < sb.len() implies #[trigger] displaced_step(sb, p2, j) by {
            assert(displaced_step(sa + sb, p, j + n));
        }
    }
}

/// Summing the segments of a concatenation onto `init` is summing those of the
/// second trail onto the sum of the first.
pub proof fn law_displacement_of_concat(init: Vec2, a: Trail, b: Trail, m: Vec2, d: Vec2)
    ensures
        sums_to(init, a@, m) && sums_to(m, b@, d) ==> sums_to(init, a@ + b@, d),
        sums_to(init, a@ + b@, d) ==> exists|mid: Vec2| #[trigger] sums_to(init, a@, mid) && sums_to(mid, b@, d),
{
    let (sa, sb) = (a@, b@);
    let n = sa.len();
    if sums_to(init, sa, m) && sums_to(m, sb, d) {
        let acc_a = choose|acc: Seq<Vec2>| #[trigger] running_sums(init, sa, acc) && acc.last() == m;
        let acc_b = choose|acc: Seq<Vec2>| #[trigger] running_sums(m, sb, acc) && acc.last() == d;
        let acc = acc_a + acc_b.drop_first();
        assert forall|j: int| 0 <= j < (sa + sb).len() implies #[trigger] sum_step(sa + sb, acc, j) by {
            if j < n {
                assert(sum_step(sa, acc_a, j));
            } else {
                assert(sum_step(sb, acc_b, j - n));
            }
        }
        assert(running_sums(init, sa + sb, acc));
    }
    if sums_to(init, sa + sb, d) {
        let acc = choose|acc: Seq<Vec2>| #[trigger] running_sums(init, sa + sb, acc) && acc.last() == d;
        let acc_a = acc.subrange(0, n + 1int);
        let acc_b = acc.subrange(n as int, acc.len() as int);
        assert forall|j: int| 0 <= j < sa.len() implies #[trigger] sum_step(sa, acc_a, j) by {
            assert(sum_step(sa + sb, acc, j));
        }
        assert forall|j: int| 0 <= j < sb.len() implies #[trigger] sum_step(sb, acc_b, j) by {
            assert(sum_step(sa + sb, acc, j + n));
        }
        assert(running_sums(init, sa, acc_a));
        assert(running_sums(acc[n as int], sb, acc_b));
        assert(sums_to(init, sa, acc[n as int]) && sums_to(acc[n as int], sb, d));
    }
}

} // verus!
