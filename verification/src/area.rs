//! Upright rectangles.
use vstd::prelude::*;
use crate::single::{num, Single};

verus! {

/// An upright rectangle; its edges belong to it.
#[derive(Clone, Copy, Debug, PartialEq, Eq)]
pub struct Area {
    pub min_x: Single,
    pub max_x: Single,
    pub min_y: Single,
    pub max_y: Single,
}

/// The rectangle between two corners, given in any order.
pub open spec fn spanned(a: Seq<Single>, b: Seq<Single>) -> Area {
    Area {
        min_x: a[0].lower(b[0]),
        max_x: a[0].higher(b[0]),
        min_y: a[1].lower(b[1]),
        max_y: a[1].higher(b[1]),
    }
}

impl Area {
    /// The point lies in the rectangle.
    pub open spec fn holds(self, p: Seq<Single>) -> bool {
        &&& self.min_x.at_most(p[0])
        &&& p[0].at_most(self.max_x)
        &&& self.min_y.at_most(p[1])
        &&& p[1].at_most(self.max_y)
    }

    /// The origin alone.
    pub open spec fn origin() -> Area {
        Area { min_x: num(0), max_x: num(0), min_y: num(0), max_y: num(0) }
    }

    /// The rectangle between two corners, given in any order.
    pub fn between(a: [Single; 2], b: [Single; 2]) -> (r: Area)
        ensures
            r == spanned(a@, b@),
    {
        Area {
            min_x: a[0].min(b[0]),
            max_x: a[0].max(b[0]),
            min_y: a[1].min(b[1]),
            max_y: a[1].max(b[1]),
        }
    }

    /// The origin alone.
    pub fn at_origin() -> (r: Area)
        ensures
            r == Area::origin(),
    {
        let zero = Single::from_bits(0);
        Area { min_x: zero, max_x: zero, min_y: zero, max_y: zero }
    }

    /// Whether a point lies in the rectangle.
    pub fn contains(&self, p: [Single; 2]) -> (r: bool)
        ensures
            r == self.holds(p@),
    {
        p[0].ge(self.min_x) && p[0].le(self.max_x) && p[1].ge(self.min_y) && p[1].le(self.max_y)
    }
}

/// It does not matter from which of its four corners a rectangle is drawn.
pub proof fn law_corners_can_be_swapped(a: Seq<Single>, b: Seq<Single>, p: Seq<Single>)
    ensures
        spanned(a, b).holds(p) == spanned(b, a).holds(p),
        spanned(a, b).holds(p) == spanned(seq![a[0], b[1]], seq![b[0], a[1]]).holds(p),
        spanned(a, b).holds(p) == spanned(seq![b[0], a[1]], seq![a[0], b[1]]).holds(p),
{
}

/// Both corners of a rectangle lie in it.
pub proof fn law_corners_lie_inside(a: Seq<Single>, b: Seq<Single>)
    requires
        !a[0].nan(),
        !a[1].nan(),
        !b[0].nan(),
        !b[1].nan(),
    ensures
        spanned(a, b).holds(a),
        spanned(a, b).holds(b),
{
}

/// A rectangle between two points reaches exactly from the one to the other: it holds a point
/// exactly if each of its coordinates lies between those of the two, edges included.
pub proof fn law_rectangle_reaches_between_its_corners(
    a: [Single; 2],
    b: [Single; 2],
    area: Area,
    p: [Single; 2],
    inside: bool,
)
    requires
        !a@[0].nan() && !a@[1].nan() && !b@[0].nan() && !b@[1].nan(),
        call_ensures(Area::between, (a, b), area),
        call_ensures(Area::contains, (&area, p), inside),
    ensures
        inside == ((a@[0].at_most(p@[0]) && p@[0].at_most(b@[0]) || b@[0].at_most(p@[0])
            && p@[0].at_most(a@[0])) && (a@[1].at_most(p@[1]) && p@[1].at_most(b@[1])
            || b@[1].at_most(p@[1]) && p@[1].at_most(a@[1]))),
        inside == area.holds(p@),
        area == spanned(a@, b@),
{
}

/// Moving an edge outwards loses no point, and a point beyond an edge is outside.
pub proof fn law_larger_rectangle_holds_more(small: Area, large: Area, p: [Single; 2], a: bool, b: bool)
    requires
        large.min_x.at_most(small.min_x),
        small.max_x.at_most(large.max_x),
        large.min_y.at_most(small.min_y),
        small.max_y.at_most(large.max_y),
        call_ensures(Area::contains, (&small, p), a),
        call_ensures(Area::contains, (&large, p), b),
    ensures
        a ==> b,
        p@[0].less(small.min_x) || small.max_x.less(p@[0]) || p@[1].less(small.min_y)
            || small.max_y.less(p@[1]) ==> !a,
{
}

/// The rectangle at the origin holds the origin and nothing else.
pub proof fn law_origin_holds_itself_alone(area: Area, p: [Single; 2], inside: bool)
    requires
        call_ensures(Area::at_origin, (), area),
        call_ensures(Area::contains, (&area, p), inside),
    ensures
        inside == (p@[0].bits % 0x8000_0000 == 0 && p@[1].bits % 0x8000_0000 == 0),
{
}

/// The edges of a rectangle between two points are the smaller and the larger coordinates of the
/// two, and a rectangle holds a point exactly if it lies beyond none of its edges.
pub proof fn law_edges_are_the_outer_coordinates(
    a: [Single; 2],
    b: [Single; 2],
    area: Area,
    left: Single,
    right: Single,
    bottom: Single,
    top: Single,
    any: Area,
    p: [Single; 2],
    inside: bool,
)
    requires
        call_ensures(Area::between, (a, b), area),
        call_ensures(Single::min, (a@[0], b@[0]), left),
        call_ensures(Single::max, (a@[0], b@[0]), right),
        call_ensures(Single::min, (a@[1], b@[1]), bottom),
        call_ensures(Single::max, (a@[1], b@[1]), top),
        call_ensures(Area::contains, (&any, p), inside),
    ensures
        area.min_x == left,
        area.max_x == right,
        area.min_y == bottom,
        area.max_y == top,
        inside == (any.min_x.at_most(p@[0]) && p@[0].at_most(any.max_x) && any.min_y.at_most(p@[1])
            && p@[1].at_most(any.max_y)),
        inside == any.holds(p@),
{
}

} // verus!
