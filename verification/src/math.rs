//! Exact geometric predicates on points of an integer grid.
//!
//! Every predicate is decided by the sign of an integer determinant, so that
//! two queries about the same points can never contradict each other.
use vstd::prelude::*;

verus! {

/// Largest absolute value of a coordinate for which every predicate of this
/// module can be evaluated in 128-bit arithmetic.
pub const MAX_COORDINATE: i64 = 0x2000_0000;

/// A point of the plane with integer coordinates.
#[derive(Clone, Copy, Debug, PartialEq, Eq, Structural, Hash)]
pub struct Point2 {
    pub x: i64,
    pub y: i64,
}

/// The side of a directed line on which a point lies.
#[derive(Clone, Copy, Debug, PartialEq, Eq, Structural, Hash)]
pub enum LineSideInfo {
    Left,
    OnLine,
    Right,
}

/// Twice the signed area of the triangle `a`, `b`, `c`: positive when the
/// three points make a left turn.
pub open spec fn orient2d(a: Point2, b: Point2, c: Point2) -> int {
    (b.x - a.x) * (c.y - a.y) - (b.y - a.y) * (c.x - a.x)
}

/// The side that belongs to the sign of a determinant.
pub open spec fn side_of_determinant(det: int) -> LineSideInfo {
    if det > 0 {
        LineSideInfo::Left
    } else if det == 0 {
        LineSideInfo::OnLine
    } else {
        LineSideInfo::Right
    }
}

/// The side of the directed line from `p1` to `p2` on which `q` lies.
pub open spec fn side_of(p1: Point2, p2: Point2, q: Point2) -> LineSideInfo {
    side_of_determinant(orient2d(p1, p2, q))
}

/// The lifted determinant of the in-circle test: for `a`, `b`, `c` in
/// counterclockwise order it is positive exactly when `d` lies strictly inside
/// the circle through them.
pub open spec fn incircle_det(a: Point2, b: Point2, c: Point2, d: Point2) -> int {
    let adx = a.x - d.x;
    let ady = a.y - d.y;
    let bdx = b.x - d.x;
    let bdy = b.y - d.y;
    let cdx = c.x - d.x;
    let cdy = c.y - d.y;
    (adx * adx + ady * ady) * (bdx * cdy - cdx * bdy)
        + (bdx * bdx + bdy * bdy) * (cdx * ady - adx * cdy)
        + (cdx * cdx + cdy * cdy) * (adx * bdy - bdx * ady)
}

/// The scalar product of `q - p1` with `p2 - p1`.
pub open spec fn projection_factor(p1: Point2, p2: Point2, q: Point2) -> int {
    (q.x - p1.x) * (p2.x - p1.x) + (q.y - p1.y) * (p2.y - p1.y)
}

/// The scalar product of the point `q` with the direction from `from` to
/// `to`: it grows along that direction.
pub open spec fn projection_along(from: Point2, to: Point2, q: Point2) -> int {
    (to.x - from.x) * q.x + (to.y - from.y) * q.y
}

/// The squared Euclidean distance of two points.
pub open spec fn distance_2_of(p: Point2, q: Point2) -> int {
    (q.x - p.x) * (q.x - p.x) + (q.y - p.y) * (q.y - p.y)
}

/// Bounds the product of two bounded integers.
pub proof fn lemma_product_bound(a: int, b: int, m: int)
    requires
        -m <= a <= m,
        -m <= b <= m,
    ensures
        -(m * m) <= a * b <= m * m,
{
    assert(-(m * m) <= a * b <= m * m) by (nonlinear_arith)
        requires
            -m <= a <= m,
            -m <= b <= m,
    ;
}

impl Point2 {
    /// Whether both coordinates are small enough for the predicates.
    pub open spec fn in_range(self) -> bool {
        &&& -MAX_COORDINATE <= self.x <= MAX_COORDINATE
        &&& -MAX_COORDINATE <= self.y <= MAX_COORDINATE
    }

    pub fn new(x: i64, y: i64) -> (p: Point2)
        ensures
            p.x == x,
            p.y == y,
    {
        Point2 { x, y }
    }

    /// Decides `in_range`.
    pub fn is_in_range(&self) -> (b: bool)
        ensures
            b == self.in_range(),
    {
        -MAX_COORDINATE <= self.x && self.x <= MAX_COORDINATE && -MAX_COORDINATE <= self.y
            && self.y <= MAX_COORDINATE
    }

    /// Whether two points have the same coordinates.
    pub fn same_position(&self, other: &Point2) -> (b: bool)
        ensures
            b == (*self == *other),
    {
        self.x == other.x && self.y == other.y
    }

    /// The squared Euclidean distance to `other`.
    pub fn distance_2(&self, other: Point2) -> (d: i64)
        requires
            self.in_range(),
            other.in_range(),
        ensures
            d == distance_2_of(*self, other),
    {
        let dx: i64 = other.x - self.x;
        let dy: i64 = other.y - self.y;
        proof {
            lemma_product_bound(dx as int, dx as int, 0x4000_0000);
            lemma_product_bound(dy as int, dy as int, 0x4000_0000);
        }
        dx * dx + dy * dy
    }
}

impl LineSideInfo {
    /// The side that belongs to the sign of a determinant.
    pub fn from_determinant(det: i128) -> (side: LineSideInfo)
        ensures
            side == side_of_determinant(det as int),
    {
        if det > 0 {
            LineSideInfo::Left
        } else if det == 0 {
            LineSideInfo::OnLine
        } else {
            LineSideInfo::Right
        }
    }

    pub fn is_on_left_side(&self) -> (b: bool)
        ensures
            b == (*self == LineSideInfo::Left),
    {
        match self {
            LineSideInfo::Left => true,
            _ => false,
        }
    }

    pub fn is_on_right_side(&self) -> (b: bool)
        ensures
            b == (*self == LineSideInfo::Right),
    {
        match self {
            LineSideInfo::Right => true,
            _ => false,
        }
    }

    pub fn is_on_line(&self) -> (b: bool)
        ensures
            b == (*self == LineSideInfo::OnLine),
    {
        match self {
            LineSideInfo::OnLine => true,
            _ => false,
        }
    }

    pub fn is_on_left_side_or_on_line(&self) -> (b: bool)
        ensures
            b == (*self != LineSideInfo::Right),
    {
        !self.is_on_right_side()
    }

    pub fn is_on_right_side_or_on_line(&self) -> (b: bool)
        ensures
            b == (*self != LineSideInfo::Left),
    {
        !self.is_on_left_side()
    }

    /// The side as seen from the line with its direction reversed.
    pub open spec fn reversed_spec(self) -> LineSideInfo {
        match self {
            LineSideInfo::Left => LineSideInfo::Right,
            LineSideInfo::OnLine => LineSideInfo::OnLine,
            LineSideInfo::Right => LineSideInfo::Left,
        }
    }

    /// The side as seen from the line with its direction reversed.
    pub fn reversed(&self) -> (side: LineSideInfo)
        ensures
            side == self.reversed_spec(),
    {
        match self {
            LineSideInfo::Left => LineSideInfo::Right,
            LineSideInfo::OnLine => LineSideInfo::OnLine,
            LineSideInfo::Right => LineSideInfo::Left,
        }
    }
}

/// Reversing the line mirrors the side: the determinant changes its sign.
pub proof fn lemma_side_reversed(p1: Point2, p2: Point2, q: Point2)
    ensures
        orient2d(p2, p1, q) == -orient2d(p1, p2, q),
        side_of(p2, p1, q) == side_of(p1, p2, q).reversed_spec(),
{
    assert(orient2d(p2, p1, q) == -orient2d(p1, p2, q)) by (nonlinear_arith);
}

/// The exact orientation determinant of three points in range.
pub fn orient2d_exact(p1: Point2, p2: Point2, q: Point2) -> (det: i128)
    requires
        p1.in_range(),
        p2.in_range(),
        q.in_range(),
    ensures
        det == orient2d(p1, p2, q),
{
    let ax: i128 = p2.x as i128 - p1.x as i128;
    let ay: i128 = p2.y as i128 - p1.y as i128;
    let bx: i128 = q.x as i128 - p1.x as i128;
    let by: i128 = q.y as i128 - p1.y as i128;
    proof {
        lemma_product_bound(ax as int, by as int, 0x4000_0000);
        lemma_product_bound(ay as int, bx as int, 0x4000_0000);
    }
    ax * by - ay * bx
}

/// Identifies on which side of the directed line from `p1` to `p2` the point
/// `query_point` lies.
pub fn side_query(p1: Point2, p2: Point2, query_point: Point2) -> (side: LineSideInfo)
    requires
        p1.in_range(),
        p2.in_range(),
        query_point.in_range(),
    ensures
        side == side_of(p1, p2, query_point),
{
    LineSideInfo::from_determinant(orient2d_exact(p1, p2, query_point))
}

/// Whether `p1`, `p2`, `query_point` make a left turn or lie on one line.
pub fn is_ordered_ccw(p1: Point2, p2: Point2, query_point: Point2) -> (b: bool)
    requires
        p1.in_range(),
        p2.in_range(),
        query_point.in_range(),
    ensures
        b == (orient2d(p1, p2, query_point) >= 0),
{
    let query = side_query(p1, p2, query_point);
    query.is_on_left_side_or_on_line()
}

/// Whether `p` lies strictly inside the circle through `v1`, `v2`, `v3`, which
/// are expected in counterclockwise order. A point on the circle is not
/// contained.
pub fn contained_in_circumference(v1: Point2, v2: Point2, v3: Point2, p: Point2) -> (b: bool)
    requires
        v1.in_range(),
        v2.in_range(),
        v3.in_range(),
        p.in_range(),
    ensures
        b == (incircle_det(v1, v2, v3, p) > 0),
{
    let adx: i128 = v1.x as i128 - p.x as i128;
    let ady: i128 = v1.y as i128 - p.y as i128;
    let bdx: i128 = v2.x as i128 - p.x as i128;
    let bdy: i128 = v2.y as i128 - p.y as i128;
    let cdx: i128 = v3.x as i128 - p.x as i128;
    let cdy: i128 = v3.y as i128 - p.y as i128;
    proof {
        let m: int = 0x4000_0000;
        lemma_product_bound(adx as int, adx as int, m);
        lemma_product_bound(ady as int, ady as int, m);
        lemma_product_bound(bdx as int, bdx as int, m);
        lemma_product_bound(bdy as int, bdy as int, m);
        lemma_product_bound(cdx as int, cdx as int, m);
        lemma_product_bound(cdy as int, cdy as int, m);
        lemma_product_bound(bdx as int, cdy as int, m);
        lemma_product_bound(cdx as int, bdy as int, m);
        lemma_product_bound(cdx as int, ady as int, m);
        lemma_product_bound(adx as int, cdy as int, m);
        lemma_product_bound(adx as int, bdy as int, m);
        lemma_product_bound(bdx as int, ady as int, m);
    }
    let alift: i128 = adx * adx + ady * ady;
    let blift: i128 = bdx * bdx + bdy * bdy;
    let clift: i128 = cdx * cdx + cdy * cdy;
    let across: i128 = bdx * cdy - cdx * bdy;
    let bcross: i128 = cdx * ady - adx * cdy;
    let ccross: i128 = adx * bdy - bdx * ady;
    proof {
        let n: int = 0x2000_0000_0000_0000;
        lemma_product_bound(alift as int, across as int, n);
        lemma_product_bound(blift as int, bcross as int, n);
        lemma_product_bound(clift as int, ccross as int, n);
    }
    let det: i128 = alift * across + blift * bcross + clift * ccross;
    det > 0
}

/// Whether the segment from `from0` to `to0` meets the segment from `from1`
/// to `to1`, for two segments that do not lie on one common line. Segments that
/// only touch in an end point count as meeting.
pub fn intersects_edge_non_collinear(
    from0: Point2,
    to0: Point2,
    from1: Point2,
    to1: Point2,
) -> (b: bool)
    requires
        from0.in_range(),
        to0.in_range(),
        from1.in_range(),
        to1.in_range(),
        !(orient2d(from0, to0, from1) == 0 && orient2d(from0, to0, to1) == 0 && orient2d(
            from1,
            to1,
            from0,
        ) == 0 && orient2d(from1, to1, to0) == 0),
    ensures
        b == (side_of(from0, to0, from1) != side_of(from0, to0, to1) && side_of(
            from1,
            to1,
            from0,
        ) != side_of(from1, to1, to0)),
{
    let other_from = side_query(from0, to0, from1);
    let other_to = side_query(from0, to0, to1);
    let self_from = side_query(from1, to1, from0);
    let self_to = side_query(from1, to1, to0);
    other_from != other_to && self_from != self_to
}

/// The position of a point relative to a segment, after projecting the point
/// onto the line through the segment.
pub struct PointProjection {
    factor: i64,
    length_2: i64,
}

impl PointProjection {
    #[verifier::type_invariant]
    spec fn bounded(self) -> bool {
        &&& -0x4000_0000_0000_0000 <= self.factor <= 0x4000_0000_0000_0000
        &&& 0 <= self.length_2 <= 0x4000_0000_0000_0000
        &&& -0x4000_0000_0000_0000 <= self.length_2 - self.factor <= 0x4000_0000_0000_0000
    }

    /// The scalar product of the query point's offset with the segment.
    pub closed spec fn factor_spec(self) -> int {
        self.factor as int
    }

    /// The squared length of the segment.
    pub closed spec fn length_2_spec(self) -> int {
        self.length_2 as int
    }

    fn new(factor: i64, length_2: i64) -> (p: PointProjection)
        requires
            -0x2000_0000_0000_0000 <= factor <= 0x2000_0000_0000_0000,
            0 <= length_2 <= 0x2000_0000_0000_0000,
        ensures
            p.factor_spec() == factor,
            p.length_2_spec() == length_2,
    {
        PointProjection { factor, length_2 }
    }

    pub fn factor(&self) -> (f: i64)
        ensures
            f == self.factor_spec(),
    {
        self.factor
    }

    pub fn length_2(&self) -> (l: i64)
        ensures
            l == self.length_2_spec(),
    {
        self.length_2
    }

    /// Whether the projection lies before the segment's start.
    pub fn is_before_edge(&self) -> (b: bool)
        ensures
            b == (self.factor_spec() < 0),
    {
        self.factor < 0
    }

    /// Whether the projection lies behind the segment's end.
    pub fn is_after_edge(&self) -> (b: bool)
        ensures
            b == (self.factor_spec() > self.length_2_spec()),
    {
        self.factor > self.length_2
    }

    /// Whether the projection lies on the segment, end points included.
    pub fn is_on_edge(&self) -> (b: bool)
        ensures
            b == (0 <= self.factor_spec() <= self.length_2_spec()),
    {
        !self.is_before_edge() && !self.is_after_edge()
    }

    /// The projection relative to the segment with its direction reversed.
    pub fn reversed(&self) -> (p: PointProjection)
        ensures
            p.factor_spec() == self.length_2_spec() - self.factor_spec(),
            p.length_2_spec() == self.length_2_spec(),
    {
        proof {
            use_type_invariant(self);
        }
        PointProjection { factor: self.length_2 - self.factor, length_2: self.length_2 }
    }
}

/// Projects `query_point` onto the line through `p1` and `p2`.
pub fn project_point(p1: Point2, p2: Point2, query_point: Point2) -> (p: PointProjection)
    requires
        p1.in_range(),
        p2.in_range(),
        query_point.in_range(),
    ensures
        p.factor_spec() == projection_factor(p1, p2, query_point),
        p.length_2_spec() == distance_2_of(p1, p2),
{
    let dx: i64 = p2.x - p1.x;
    let dy: i64 = p2.y - p1.y;
    let qx: i64 = query_point.x - p1.x;
    let qy: i64 = query_point.y - p1.y;
    proof {
        let m: int = 0x4000_0000;
        lemma_product_bound(qx as int, dx as int, m);
        lemma_product_bound(qy as int, dy as int, m);
        lemma_product_bound(dx as int, dx as int, m);
        lemma_product_bound(dy as int, dy as int, m);
        assert(dx * dx >= 0) by (nonlinear_arith);
        assert(dy * dy >= 0) by (nonlinear_arith);
    }
    PointProjection::new(qx * dx + qy * dy, dx * dx + dy * dy)
}


/// An exact quotient of two integers. The denominator is positive.
#[derive(Clone, Copy, Debug, PartialEq, Eq)]
pub struct Ratio {
    pub num: i128,
    pub den: i128,
}

/// A point whose coordinates are the exact quotients `x / den` and
/// `y / den`. The denominator is positive.
#[derive(Clone, Copy, Debug, PartialEq, Eq)]
pub struct RatioPoint {
    pub x: i128,
    pub y: i128,
    pub den: i128,
}

impl PointProjection {
    /// The position of the projection along the segment as an exact quotient:
    /// 0 at the start, 1 at the end. The segment must not be a single point.
    pub fn relative_position(&self) -> (r: Ratio)
        requires
            self.length_2_spec() > 0,
        ensures
            r.num == self.factor_spec(),
            r.den == self.length_2_spec(),
    {
        Ratio { num: self.factor as i128, den: self.length_2 as i128 }
    }
}

/// The numerators and the denominator of the point of the segment from `p1`
/// to `p2` that is nearest to `q`: an end point where the projection of `q`
/// falls outside the segment, the projection itself else.
pub open spec fn nearest_point_spec(p1: Point2, p2: Point2, q: Point2) -> (int, int, int) {
    let factor = projection_factor(p1, p2, q);
    let length_2 = distance_2_of(p1, p2);
    if factor < 0 || length_2 == 0 {
        (p1.x as int, p1.y as int, 1)
    } else if factor > length_2 {
        (p2.x as int, p2.y as int, 1)
    } else {
        (
            p1.x * length_2 + (p2.x - p1.x) * factor,
            p1.y * length_2 + (p2.y - p1.y) * factor,
            length_2,
        )
    }
}

/// The numerator and the denominator of the squared distance of `q` to the
/// segment from `p1` to `p2`: the squared distance to an end point where the
/// projection of `q` falls outside the segment, the squared distance to the
/// line else.
pub open spec fn distance_2_spec(p1: Point2, p2: Point2, q: Point2) -> (int, int) {
    let factor = projection_factor(p1, p2, q);
    let length_2 = distance_2_of(p1, p2);
    if factor < 0 || length_2 == 0 {
        (distance_2_of(p1, q), 1)
    } else if factor > length_2 {
        (distance_2_of(p2, q), 1)
    } else {
        (orient2d(p1, p2, q) * orient2d(p1, p2, q), length_2)
    }
}

/// The bounds of the quantities that the measures of a segment are made of.
pub proof fn lemma_segment_bounds(p1: Point2, p2: Point2, q: Point2)
    requires
        p1.in_range(),
        p2.in_range(),
        q.in_range(),
    ensures
        -0x2000_0000_0000_0000 <= projection_factor(p1, p2, q) <= 0x2000_0000_0000_0000,
        0 <= distance_2_of(p1, p2) <= 0x2000_0000_0000_0000,
        0 <= distance_2_of(p1, q) <= 0x2000_0000_0000_0000,
        0 <= distance_2_of(p2, q) <= 0x2000_0000_0000_0000,
        -0x2000_0000_0000_0000 <= orient2d(p1, p2, q) <= 0x2000_0000_0000_0000,
{
    let m: int = 0x4000_0000;
    lemma_product_bound(q.x - p1.x, p2.x - p1.x, m);
    lemma_product_bound(q.y - p1.y, p2.y - p1.y, m);
    lemma_product_bound(p2.x - p1.x, p2.x - p1.x, m);
    lemma_product_bound(p2.y - p1.y, p2.y - p1.y, m);
    lemma_product_bound(q.x - p1.x, q.x - p1.x, m);
    lemma_product_bound(q.y - p1.y, q.y - p1.y, m);
    lemma_product_bound(q.x - p2.x, q.x - p2.x, m);
    lemma_product_bound(q.y - p2.y, q.y - p2.y, m);
    lemma_product_bound(p2.x - p1.x, q.y - p1.y, m);
    lemma_product_bound(p2.y - p1.y, q.x - p1.x, m);
    assert((p2.x - p1.x) * (p2.x - p1.x) >= 0) by (nonlinear_arith);
    assert((p2.y - p1.y) * (p2.y - p1.y) >= 0) by (nonlinear_arith);
    assert((q.x - p1.x) * (q.x - p1.x) >= 0) by (nonlinear_arith);
    assert((q.y - p1.y) * (q.y - p1.y) >= 0) by (nonlinear_arith);
    assert((q.x - p2.x) * (q.x - p2.x) >= 0) by (nonlinear_arith);
    assert((q.y - p2.y) * (q.y - p2.y) >= 0) by (nonlinear_arith);
}

/// The point of the segment from `p1` to `p2` that is nearest to
/// `query_point`, with exact coordinates.
pub fn nearest_point(p1: Point2, p2: Point2, query_point: Point2) -> (r: RatioPoint)
    requires
        p1.in_range(),
        p2.in_range(),
        query_point.in_range(),
    ensures
        (r.x as int, r.y as int, r.den as int) == nearest_point_spec(p1, p2, query_point),
        r.den > 0,
{
    proof {
        lemma_segment_bounds(p1, p2, query_point);
    }
    let s = project_point(p1, p2, query_point);
    let factor: i128 = s.factor() as i128;
    let length_2: i128 = s.length_2() as i128;
    if s.is_before_edge() || length_2 == 0 {
        RatioPoint { x: p1.x as i128, y: p1.y as i128, den: 1 }
    } else if s.is_after_edge() {
        RatioPoint { x: p2.x as i128, y: p2.y as i128, den: 1 }
    } else {
        let dx: i128 = p2.x as i128 - p1.x as i128;
        let dy: i128 = p2.y as i128 - p1.y as i128;
        proof {
            let b: int = 0x2000_0000_0000_0000;
            lemma_product_bound(p1.x as int, length_2 as int, b);
            lemma_product_bound(p1.y as int, length_2 as int, b);
            lemma_product_bound(dx as int, factor as int, b);
            lemma_product_bound(dy as int, factor as int, b);
        }
        RatioPoint {
            x: p1.x as i128 * length_2 + dx * factor,
            y: p1.y as i128 * length_2 + dy * factor,
            den: length_2,
        }
    }
}

/// The squared distance of `query_point` to the segment from `p1` to `p2`,
/// as an exact quotient.
pub fn distance_2(p1: Point2, p2: Point2, query_point: Point2) -> (r: Ratio)
    requires
        p1.in_range(),
        p2.in_range(),
        query_point.in_range(),
    ensures
        (r.num as int, r.den as int) == distance_2_spec(p1, p2, query_point),
        r.den > 0,
        r.num >= 0,
{
    proof {
        lemma_segment_bounds(p1, p2, query_point);
    }
    let s = project_point(p1, p2, query_point);
    let length_2: i128 = s.length_2() as i128;
    if s.is_before_edge() || length_2 == 0 {
        Ratio { num: p1.distance_2(query_point) as i128, den: 1 }
    } else if s.is_after_edge() {
        Ratio { num: p2.distance_2(query_point) as i128, den: 1 }
    } else {
        let cross: i128 = orient2d_exact(p1, p2, query_point);
        proof {
            lemma_product_bound(cross as int, cross as int, 0x2000_0000_0000_0000);
            assert(cross * cross >= 0) by (nonlinear_arith);
        }
        Ratio { num: cross * cross, den: length_2 }
    }
}

/// The numerator and the denominator of the squared distance of `q` to the
/// triangle with the corners `a`, `b`, `c` in counterclockwise order: the
/// distance to the first edge that has `q` strictly on its right, zero where
/// none has.
pub open spec fn distance_2_triangle_spec(a: Point2, b: Point2, c: Point2, q: Point2) -> (int, int) {
    if orient2d(a, b, q) < 0 {
        distance_2_spec(a, b, q)
    } else if orient2d(b, c, q) < 0 {
        distance_2_spec(b, c, q)
    } else if orient2d(c, a, q) < 0 {
        distance_2_spec(c, a, q)
    } else {
        (0, 1)
    }
}

/// The squared distance of `query_point` to the triangle with the corners
/// `vertices`, which are given in counterclockwise order, as an exact
/// quotient. It is zero inside the triangle and on its boundary.
pub fn distance_2_triangle(vertices: [Point2; 3], query_point: Point2) -> (r: Ratio)
    requires
        vertices[0].in_range(),
        vertices[1].in_range(),
        vertices[2].in_range(),
        query_point.in_range(),
    ensures
        (r.num as int, r.den as int) == distance_2_triangle_spec(
            vertices[0],
            vertices[1],
            vertices[2],
            query_point,
        ),
        r.den > 0,
        r.num >= 0,
{
    let a: Point2 = vertices[0];
    let b: Point2 = vertices[1];
    let c: Point2 = vertices[2];
    if side_query(a, b, query_point).is_on_right_side() {
        distance_2(a, b, query_point)
    } else if side_query(b, c, query_point).is_on_right_side() {
        distance_2(b, c, query_point)
    } else if side_query(c, a, query_point).is_on_right_side() {
        distance_2(c, a, query_point)
    } else {
        Ratio { num: 0, den: 1 }
    }
}

/// The numerators and the denominator of the center of the circle through
/// `a`, `b`, `c`.
pub open spec fn circumcenter_spec(a: Point2, b: Point2, c: Point2) -> (int, int, int) {
    let bx = b.x - a.x;
    let by = b.y - a.y;
    let cx = c.x - a.x;
    let cy = c.y - a.y;
    let d = 2 * (bx * cy - cx * by);
    let len_b = bx * bx + by * by;
    let len_c = cx * cx + cy * cy;
    (a.x * d + (len_b * cy - len_c * by), a.y * d + (len_c * bx - len_b * cx), d)
}

/// The center of the circle through the corners `a`, `b`, `c` of a triangle,
/// which are given in counterclockwise order and do not lie on one line, with
/// exact coordinates.
pub fn circumcenter(a: Point2, b: Point2, c: Point2) -> (r: RatioPoint)
    requires
        a.in_range(),
        b.in_range(),
        c.in_range(),
        orient2d(a, b, c) > 0,
    ensures
        (r.x as int, r.y as int, r.den as int) == circumcenter_spec(a, b, c),
        r.den == 2 * orient2d(a, b, c),
        r.den > 0,
{
    let bx: i128 = b.x as i128 - a.x as i128;
    let by: i128 = b.y as i128 - a.y as i128;
    let cx: i128 = c.x as i128 - a.x as i128;
    let cy: i128 = c.y as i128 - a.y as i128;
    proof {
        let m: int = 0x4000_0000;
        lemma_product_bound(bx as int, cy as int, m);
        lemma_product_bound(cx as int, by as int, m);
        lemma_product_bound(bx as int, bx as int, m);
        lemma_product_bound(by as int, by as int, m);
        lemma_product_bound(cx as int, cx as int, m);
        lemma_product_bound(cy as int, cy as int, m);
    }
    let d: i128 = 2 * (bx * cy - cx * by);
    let len_b: i128 = bx * bx + by * by;
    let len_c: i128 = cx * cx + cy * cy;
    proof {
        let n: int = 0x4000_0000_0000_0000;
        lemma_product_bound(len_b as int, cy as int, n);
        lemma_product_bound(len_c as int, by as int, n);
        lemma_product_bound(len_c as int, bx as int, n);
        lemma_product_bound(len_b as int, cx as int, n);
        lemma_product_bound(a.x as int, d as int, n);
        lemma_product_bound(a.y as int, d as int, n);
        assert(bx * cy - cx * by == orient2d(a, b, c)) by (nonlinear_arith)
            requires
                bx == b.x - a.x,
                by == b.y - a.y,
                cx == c.x - a.x,
                cy == c.y - a.y,
        ;
    }
    RatioPoint {
        x: a.x as i128 * d + (len_b * cy - len_c * by),
        y: a.y as i128 * d + (len_c * bx - len_b * cx),
        den: d,
    }
}

/// The numerators of the barycentric coordinates of `q` relative to the
/// triangle `a`, `b`, `c`, and their common denominator.
pub open spec fn barycentric_spec(a: Point2, b: Point2, c: Point2, q: Point2) -> (
    int,
    int,
    int,
    int,
) {
    let det = (b.y - c.y) * (a.x - c.x) + (c.x - b.x) * (a.y - c.y);
    let l1 = (b.y - c.y) * (q.x - c.x) + (c.x - b.x) * (q.y - c.y);
    let l2 = (c.y - a.y) * (q.x - c.x) + (a.x - c.x) * (q.y - c.y);
    (l1, l2, det - l1 - l2, det)
}

/// The barycentric coordinates of `coordinate` relative to the triangle with
/// the corners `a`, `b`, `c`, which are given in counterclockwise order and do
/// not lie on one line: three numerators and their common denominator. The
/// three numerators sum up to the denominator.
pub fn barycentric_interpolation(a: Point2, b: Point2, c: Point2, coordinate: Point2) -> (r: (
    [i128; 3],
    i128,
))
    requires
        a.in_range(),
        b.in_range(),
        c.in_range(),
        coordinate.in_range(),
        orient2d(a, b, c) > 0,
    ensures
        (r.0[0] as int, r.0[1] as int, r.0[2] as int, r.1 as int) == barycentric_spec(
            a,
            b,
            c,
            coordinate,
        ),
        r.0[0] + r.0[1] + r.0[2] == r.1,
        r.1 == orient2d(a, b, c),
{
    let q: Point2 = coordinate;
    let y23: i128 = b.y as i128 - c.y as i128;
    let x13: i128 = a.x as i128 - c.x as i128;
    let x32: i128 = c.x as i128 - b.x as i128;
    let y13: i128 = a.y as i128 - c.y as i128;
    let y31: i128 = c.y as i128 - a.y as i128;
    let qx: i128 = q.x as i128 - c.x as i128;
    let qy: i128 = q.y as i128 - c.y as i128;
    proof {
        let m: int = 0x4000_0000;
        lemma_product_bound(y23 as int, x13 as int, m);
        lemma_product_bound(x32 as int, y13 as int, m);
        lemma_product_bound(y23 as int, qx as int, m);
        lemma_product_bound(x32 as int, qy as int, m);
        lemma_product_bound(y31 as int, qx as int, m);
        lemma_product_bound(x13 as int, qy as int, m);
        assert(y23 * x13 + x32 * y13 == orient2d(a, b, c)) by (nonlinear_arith)
            requires
                y23 == b.y - c.y,
                x13 == a.x - c.x,
                x32 == c.x - b.x,
                y13 == a.y - c.y,
        ;
    }
    let det: i128 = y23 * x13 + x32 * y13;
    let lambda1: i128 = y23 * qx + x32 * qy;
    let lambda2: i128 = y31 * qx + x13 * qy;
    let lambda3: i128 = det - lambda1 - lambda2;
    ([lambda1, lambda2, lambda3], det)
}

/// The center of the triangle with the corners `a`, `b`, `c`: the average of
/// its corners, with exact coordinates.
pub fn center(a: Point2, b: Point2, c: Point2) -> (r: RatioPoint)
    requires
        a.in_range(),
        b.in_range(),
        c.in_range(),
    ensures
        r.x == a.x + b.x + c.x,
        r.y == a.y + b.y + c.y,
        r.den == 3,
{
    RatioPoint {
        x: a.x as i128 + b.x as i128 + c.x as i128,
        y: a.y as i128 + b.y as i128 + c.y as i128,
        den: 3,
    }
}


/// A circle with an exact center. The square of its radius is the exact
/// quotient of `offset_x * offset_x + offset_y * offset_y` by the square of
/// the denominator of the center.
#[derive(Clone, Copy, Debug, PartialEq, Eq)]
pub struct Circle {
    pub center: RatioPoint,
    pub offset_x: i128,
    pub offset_y: i128,
}

/// The circle through the corners `a`, `b`, `c` of a triangle, which are
/// given in counterclockwise order and do not lie on one line.
pub fn circumcircle(a: Point2, b: Point2, c: Point2) -> (r: Circle)
    requires
        a.in_range(),
        b.in_range(),
        c.in_range(),
        orient2d(a, b, c) > 0,
    ensures
        (r.center.x as int, r.center.y as int, r.center.den as int) == circumcenter_spec(a, b, c),
        r.center.den > 0,
        r.offset_x == r.center.x - a.x * r.center.den,
        r.offset_y == r.center.y - a.y * r.center.den,
{
    let center = circumcenter(a, b, c);
    proof {
        let m: int = 0x4000_0000;
        let n: int = 0x4000_0000_0000_0000;
        let bx = b.x - a.x;
        let by = b.y - a.y;
        let cx = c.x - a.x;
        let cy = c.y - a.y;
        lemma_product_bound(bx, cy, m);
        lemma_product_bound(cx, by, m);
        lemma_product_bound(bx, bx, m);
        lemma_product_bound(by, by, m);
        lemma_product_bound(cx, cx, m);
        lemma_product_bound(cy, cy, m);
        lemma_product_bound(bx * bx + by * by, cy, n);
        lemma_product_bound(cx * cx + cy * cy, by, n);
        lemma_product_bound(cx * cx + cy * cy, bx, n);
        lemma_product_bound(bx * bx + by * by, cx, n);
        lemma_product_bound(a.x as int, 2 * (bx * cy - cx * by), n);
        lemma_product_bound(a.y as int, 2 * (bx * cy - cx * by), n);
    }
    Circle {
        center,
        offset_x: center.x - a.x as i128 * center.den,
        offset_y: center.y - a.y as i128 * center.den,
    }
}

} // verus!
