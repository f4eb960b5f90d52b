//! Facts of plane geometry about the exact predicates.
use vstd::prelude::*;
use crate::math::{incircle_det, lemma_side_reversed, orient2d, projection_along, Point2};

verus! {

/// The product of two integers is positive exactly if both are positive or
/// both are negative.
pub proof fn lemma_product_sign(x: int, y: int)
    ensures
        x * y > 0 <==> (x > 0 && y > 0) || (x < 0 && y < 0),
        x * y == 0 <==> x == 0 || y == 0,
{
    assert(x * y > 0 <==> (x > 0 && y > 0) || (x < 0 && y < 0)) by (nonlinear_arith);
    assert(x * y == 0 <==> x == 0 || y == 0) by (nonlinear_arith);
}

/// The square of `y * a + x * b`, multiplied out.
proof fn lemma_square_of_combination(x: int, y: int, a: int, b: int)
    ensures
        (y * a + x * b) * (y * a + x * b) == (y * y) * (a * a) + 2 * ((x * y) * (a * b)) + (x * x)
            * (b * b),
{
    let p = y * a;
    let q = x * b;
    assert((p + q) * (p + q) == p * p + 2 * (p * q) + q * q) by (nonlinear_arith);
    assert(p * p == (y * y) * (a * a)) by (nonlinear_arith)
        requires
            p == y * a,
    ;
    assert(q * q == (x * x) * (b * b)) by (nonlinear_arith)
        requires
            q == x * b,
    ;
    assert(p * q == (x * y) * (a * b)) by (nonlinear_arith)
        requires
            p == y * a,
            q == x * b,
    ;
}

/// The cross product of two differences of vectors, multiplied out.
proof fn lemma_cross_of_differences(ax: int, ay: int, bx: int, by: int, dx: int, dy: int)
    ensures
        (ax - bx) * (dy - by) - (ay - by) * (dx - bx) == (ax * dy - ay * dx) + (dx * by - dy * bx)
            - (ax * by - ay * bx),
{
    assert((ax - bx) * (dy - by) == ax * dy - ax * by - bx * dy + bx * by) by (nonlinear_arith);
    assert((ay - by) * (dx - bx) == ay * dx - ay * bx - by * dx + by * bx) by (nonlinear_arith);
    assert(bx * by == by * bx) by (nonlinear_arith);
    assert(bx * dy == dy * bx) by (nonlinear_arith);
    assert(by * dx == dx * by) by (nonlinear_arith);
}

/// The three cross products of three vectors of the plane are bound to each
/// other: `[a, b] d = [d, b] a + [a, d] b`, and so are the squares of their
/// lengths.
proof fn lemma_three_vectors(ax: int, ay: int, bx: int, by: int, dx: int, dy: int)
    ensures
        ({
            let x = ax * dy - ay * dx;
            let y = dx * by - dy * bx;
            let z = ax * by - ay * bx;
            let a2 = ax * ax + ay * ay;
            let b2 = bx * bx + by * by;
            let d2 = dx * dx + dy * dy;
            let ab = ax * bx + ay * by;
            &&& z * dx == y * ax + x * bx
            &&& z * dy == y * ay + x * by
            &&& (z * z) * d2 == (y * y) * a2 + 2 * ((x * y) * ab) + (x * x) * b2
        }),
{
    let x = ax * dy - ay * dx;
    let y = dx * by - dy * bx;
    let z = ax * by - ay * bx;
    let a2 = ax * ax + ay * ay;
    let b2 = bx * bx + by * by;
    let d2 = dx * dx + dy * dy;
    let ab = ax * bx + ay * by;
    assert(z * dx == y * ax + x * bx) by (nonlinear_arith)
        requires
            x == ax * dy - ay * dx,
            y == dx * by - dy * bx,
            z == ax * by - ay * bx,
    ;
    assert(z * dy == y * ay + x * by) by (nonlinear_arith)
        requires
            x == ax * dy - ay * dx,
            y == dx * by - dy * bx,
            z == ax * by - ay * bx,
    ;
    let u1 = z * dx;
    let u2 = z * dy;
    assert(u1 * u1 == (z * z) * (dx * dx)) by (nonlinear_arith)
        requires
            u1 == z * dx,
    ;
    assert(u2 * u2 == (z * z) * (dy * dy)) by (nonlinear_arith)
        requires
            u2 == z * dy,
    ;
    assert((z * z) * d2 == (z * z) * (dx * dx) + (z * z) * (dy * dy)) by (nonlinear_arith)
        requires
            d2 == dx * dx + dy * dy,
    ;
    lemma_square_of_combination(x, y, ax, bx);
    lemma_square_of_combination(x, y, ay, by);
    assert((y * y) * a2 == (y * y) * (ax * ax) + (y * y) * (ay * ay)) by (nonlinear_arith)
        requires
            a2 == ax * ax + ay * ay,
    ;
    assert((x * x) * b2 == (x * x) * (bx * bx) + (x * x) * (by * by)) by (nonlinear_arith)
        requires
            b2 == bx * bx + by * by,
    ;
    assert((x * y) * ab == (x * y) * (ax * bx) + (x * y) * (ay * by)) by (nonlinear_arith)
        requires
            ab == ax * bx + ay * by,
    ;
}

/// The determinant of the in-circle test, multiplied by the cross product of
/// the edge, in terms of the cross products with the far apex.
proof fn lemma_flip_identity(x: int, y: int, z: int, a2: int, b2: int, d2: int, ab: int)
    requires
        (z * z) * d2 == (y * y) * a2 + 2 * ((x * y) * ab) + (x * x) * b2,
    ensures
        (b2 * x + a2 * y - d2 * z) * z == (x * y) * (a2 + b2 - 2 * ab) - (x + y - z) * (a2 * y + b2
            * x),
{
    let xy = x * y;
    let xx = x * x;
    let yy = y * y;
    let zz = z * z;
    assert((b2 * x + a2 * y - d2 * z) * z == (b2 * x) * z + (a2 * y) * z - (d2 * z) * z) by (nonlinear_arith);
    assert((d2 * z) * z == zz * d2) by (nonlinear_arith)
        requires
            zz == z * z,
    ;
    assert(xy * (a2 + b2 - 2 * ab) == xy * a2 + xy * b2 - 2 * (xy * ab)) by (nonlinear_arith);
    let s = a2 * y + b2 * x;
    assert((x + y - z) * s == x * s + y * s - z * s) by (nonlinear_arith);
    assert(x * s == xy * a2 + xx * b2) by (nonlinear_arith)
        requires
            s == a2 * y + b2 * x,
            xy == x * y,
            xx == x * x,
    ;
    assert(y * s == yy * a2 + xy * b2) by (nonlinear_arith)
        requires
            s == a2 * y + b2 * x,
            xy == x * y,
            yy == y * y,
    ;
    assert(z * s == (a2 * y) * z + (b2 * x) * z) by (nonlinear_arith)
        requires
            s == a2 * y + b2 * x,
    ;
}

/// Where the apex `p` on the left of the edge from `a` to `b` lies strictly
/// inside the circle through the corners of the triangle `b`, `a`, `d` on its
/// right, the two triangles form a strictly convex quadrilateral: the
/// triangles on both sides of the other diagonal are counterclockwise too.
pub proof fn lemma_flip_convex(a: Point2, b: Point2, d: Point2, p: Point2)
    requires
        orient2d(a, b, p) > 0,
        orient2d(b, a, d) > 0,
        incircle_det(d, b, a, p) > 0,
    ensures
        orient2d(p, d, b) > 0,
        orient2d(d, p, a) > 0,
{
    let ax = a.x - p.x;
    let ay = a.y - p.y;
    let bx = b.x - p.x;
    let by = b.y - p.y;
    let dx = d.x - p.x;
    let dy = d.y - p.y;
    let x = ax * dy - ay * dx;
    let y = dx * by - dy * bx;
    let z = ax * by - ay * bx;
    let a2 = ax * ax + ay * ay;
    let b2 = bx * bx + by * by;
    let d2 = dx * dx + dy * dy;
    let ab = ax * bx + ay * by;
    let w = x + y - z;
    let i = b2 * x + a2 * y - d2 * z;
    assert(orient2d(a, b, p) == z) by (nonlinear_arith)
        requires
            z == (a.x - p.x) * (b.y - p.y) - (a.y - p.y) * (b.x - p.x),
    ;
    assert(orient2d(b, a, d) == w) by {
        lemma_cross_of_differences(ax, ay, bx, by, dx, dy);
        assert(a.x - b.x == ax - bx);
        assert(d.y - b.y == dy - by);
        assert(a.y - b.y == ay - by);
        assert(d.x - b.x == dx - bx);
    }
    assert(orient2d(p, d, b) == y);
    assert(orient2d(d, p, a) == x) by (nonlinear_arith)
        requires
            x == (a.x - p.x) * (d.y - p.y) - (a.y - p.y) * (d.x - p.x),
    ;
    assert(incircle_det(d, b, a, p) == i) by (nonlinear_arith)
        requires
            i == ((b.x - p.x) * (b.x - p.x) + (b.y - p.y) * (b.y - p.y)) * ((a.x - p.x) * (d.y
                - p.y) - (a.y - p.y) * (d.x - p.x)) + ((a.x - p.x) * (a.x - p.x) + (a.y - p.y) * (
            a.y - p.y)) * ((d.x - p.x) * (b.y - p.y) - (d.y - p.y) * (b.x - p.x)) - ((d.x - p.x)
                * (d.x - p.x) + (d.y - p.y) * (d.y - p.y)) * ((a.x - p.x) * (b.y - p.y) - (a.y
                - p.y) * (b.x - p.x)),
    ;
    lemma_three_vectors(ax, ay, bx, by, dx, dy);
    lemma_flip_identity(x, y, z, a2, b2, d2, ab);
    let s = a2 * y + b2 * x;
    let ab2 = a2 + b2 - 2 * ab;
    assert(i * z == (x * y) * ab2 - w * s);
    assert(ab2 == (ax - bx) * (ax - bx) + (ay - by) * (ay - by)) by (nonlinear_arith)
        requires
            ab2 == a2 + b2 - 2 * ab,
            a2 == ax * ax + ay * ay,
            b2 == bx * bx + by * by,
            ab == ax * bx + ay * by,
    ;
    assert(ab2 >= 0) by (nonlinear_arith)
        requires
            ab2 == (ax - bx) * (ax - bx) + (ay - by) * (ay - by),
    ;
    assert(d2 >= 0) by (nonlinear_arith)
        requires
            d2 == dx * dx + dy * dy,
    ;
    lemma_product_sign(i, z);
    lemma_product_sign(d2, z);
    assert(s > 0);
    lemma_product_sign(w, s);
    assert((x * y) * ab2 > 0);
    lemma_product_sign(x * y, ab2);
    lemma_product_sign(x, y);
}


/// Rotating the three points of an orientation test keeps the determinant.
pub proof fn lemma_orient2d_rotate(a: Point2, b: Point2, c: Point2)
    ensures
        orient2d(b, c, a) == orient2d(a, b, c),
        orient2d(c, a, b) == orient2d(a, b, c),
{
    assert(orient2d(b, c, a) == orient2d(a, b, c)) by (nonlinear_arith);
    assert(orient2d(c, a, b) == orient2d(a, b, c)) by (nonlinear_arith);
}

/// A corner of a triangle lies on the circle through its corners, not
/// strictly inside.
pub proof fn lemma_corner_on_circle(a: Point2, b: Point2, c: Point2)
    ensures
        incircle_det(a, b, c, b) == 0,
        incircle_det(a, b, c, c) == 0,
{
    assert(incircle_det(a, b, c, b) == 0) by (nonlinear_arith);
    assert(incircle_det(a, b, c, c) == 0) by (nonlinear_arith);
}

/// A combination of two vectors that vanishes, multiplied by a third vector.
proof fn lemma_dot_of_combination(x: int, y: int, ax: int, ay: int, bx: int, by: int, cx: int, cy: int)
    requires
        y * ax + x * bx == 0,
        y * ay + x * by == 0,
    ensures
        y * (ax * cx + ay * cy) + x * (bx * cx + by * cy) == 0,
{
    let u = y * ax + x * bx;
    let v = y * ay + x * by;
    assert(u * cx == y * (ax * cx) + x * (bx * cx)) by (nonlinear_arith)
        requires
            u == y * ax + x * bx,
    ;
    assert(v * cy == y * (ay * cy) + x * (by * cy)) by (nonlinear_arith)
        requires
            v == y * ay + x * by,
    ;
    assert(u * cx == 0) by (nonlinear_arith)
        requires
            u == 0,
    ;
    assert(v * cy == 0) by (nonlinear_arith)
        requires
            v == 0,
    ;
    assert(y * (ax * cx + ay * cy) == y * (ax * cx) + y * (ay * cy)) by (nonlinear_arith);
    assert(x * (bx * cx + by * cy) == x * (bx * cx) + x * (by * cy)) by (nonlinear_arith);
}

/// Where `p` lies on the edge from `a` to `b` of the counterclockwise
/// triangle `a`, `b`, `c`, strictly on the left of its two other edges, it
/// lies strictly on the left of the two other edges of any counterclockwise
/// triangle `b`, `a`, `d` on the other side of the edge.
pub proof fn lemma_split_convex(a: Point2, b: Point2, c: Point2, d: Point2, p: Point2)
    requires
        orient2d(a, b, p) == 0,
        orient2d(b, c, p) > 0,
        orient2d(c, a, p) > 0,
        orient2d(b, a, d) > 0,
    ensures
        orient2d(a, d, p) > 0,
        orient2d(d, b, p) > 0,
{
    let ax = a.x - p.x;
    let ay = a.y - p.y;
    let bx = b.x - p.x;
    let by = b.y - p.y;
    let cx = c.x - p.x;
    let cy = c.y - p.y;
    let dx = d.x - p.x;
    let dy = d.y - p.y;
    let z = ax * by - ay * bx;
    let x = ax * dy - ay * dx;
    let y = dx * by - dy * bx;
    let xc = ax * cy - ay * cx;
    let yc = cx * by - cy * bx;
    let a2 = ax * ax + ay * ay;
    let b2 = bx * bx + by * by;
    let ab = ax * bx + ay * by;
    assert(orient2d(a, b, p) == z) by (nonlinear_arith)
        requires
            z == (a.x - p.x) * (b.y - p.y) - (a.y - p.y) * (b.x - p.x),
    ;
    assert(orient2d(b, c, p) == -yc) by (nonlinear_arith)
        requires
            yc == (c.x - p.x) * (b.y - p.y) - (c.y - p.y) * (b.x - p.x),
    ;
    assert(orient2d(c, a, p) == -xc) by (nonlinear_arith)
        requires
            xc == (a.x - p.x) * (c.y - p.y) - (a.y - p.y) * (c.x - p.x),
    ;
    assert(orient2d(a, d, p) == x) by (nonlinear_arith)
        requires
            x == (a.x - p.x) * (d.y - p.y) - (a.y - p.y) * (d.x - p.x),
    ;
    assert(orient2d(d, b, p) == y) by (nonlinear_arith)
        requires
            y == (d.x - p.x) * (b.y - p.y) - (d.y - p.y) * (b.x - p.x),
    ;
    assert(orient2d(b, a, d) == x + y - z) by {
        lemma_cross_of_differences(ax, ay, bx, by, dx, dy);
        assert(a.x - b.x == ax - bx);
        assert(d.y - b.y == dy - by);
        assert(a.y - b.y == ay - by);
        assert(d.x - b.x == dx - bx);
    }
    lemma_three_vectors(ax, ay, bx, by, cx, cy);
    lemma_three_vectors(ax, ay, bx, by, dx, dy);
    assert(z * cx == 0) by (nonlinear_arith)
        requires
            z == 0,
    ;
    assert(z * cy == 0) by (nonlinear_arith)
        requires
            z == 0,
    ;
    assert(z * dx == 0) by (nonlinear_arith)
        requires
            z == 0,
    ;
    assert(z * dy == 0) by (nonlinear_arith)
        requires
            z == 0,
    ;
    // [b, c] a = -[c, a] b, so the vectors to a and to b point apart.
    lemma_dot_of_combination(xc, yc, ax, ay, bx, by, bx, by);
    assert(yc * ab + xc * b2 == 0);
    assert(b2 >= 0) by (nonlinear_arith)
        requires
            b2 == bx * bx + by * by,
    ;
    assert(a2 >= 0) by (nonlinear_arith)
        requires
            a2 == ax * ax + ay * ay,
    ;
    assert(b2 != 0) by {
        if b2 == 0 {
            assert(bx == 0 && by == 0) by (nonlinear_arith)
                requires
                    bx * bx + by * by == 0,
            ;
            assert(yc == 0) by (nonlinear_arith)
                requires
                    yc == cx * by - cy * bx,
                    bx == 0,
                    by == 0,
            ;
        }
    }
    assert(a2 != 0) by {
        if a2 == 0 {
            assert(ax == 0 && ay == 0) by (nonlinear_arith)
                requires
                    ax * ax + ay * ay == 0,
            ;
            assert(xc == 0) by (nonlinear_arith)
                requires
                    xc == ax * cy - ay * cx,
                    ax == 0,
                    ay == 0,
            ;
        }
    }
    lemma_product_sign(xc, b2);
    lemma_product_sign(yc, ab);
    assert(ab < 0);
    // [d, b] a = -[a, d] b, so both cross products have the same sign.
    lemma_dot_of_combination(x, y, ax, ay, bx, by, ax, ay);
    assert(y * a2 + x * (bx * ax + by * ay) == 0);
    assert(bx * ax + by * ay == ab) by (nonlinear_arith)
        requires
            ab == ax * bx + ay * by,
    ;
    lemma_product_sign(y, a2);
    lemma_product_sign(x, ab);
}


/// The squares of the scalar product and of the cross product of two vectors
/// add up to the product of the squares of their lengths.
proof fn lemma_lagrange(ax: int, ay: int, bx: int, by: int)
    ensures
        (ax * ax + ay * ay) * (bx * bx + by * by) == (ax * bx + ay * by) * (ax * bx + ay * by) + (ax
            * by - ay * bx) * (ax * by - ay * bx),
{
    let p = ax * bx;
    let q = ay * by;
    let r = ax * by;
    let t = ay * bx;
    assert((p + q) * (p + q) == p * p + 2 * (p * q) + q * q) by (nonlinear_arith);
    assert((r - t) * (r - t) == r * r - 2 * (r * t) + t * t) by (nonlinear_arith);
    assert(p * q == r * t) by (nonlinear_arith)
        requires
            p == ax * bx,
            q == ay * by,
            r == ax * by,
            t == ay * bx,
    ;
    assert(p * p == (ax * ax) * (bx * bx)) by (nonlinear_arith)
        requires
            p == ax * bx,
    ;
    assert(q * q == (ay * ay) * (by * by)) by (nonlinear_arith)
        requires
            q == ay * by,
    ;
    assert(r * r == (ax * ax) * (by * by)) by (nonlinear_arith)
        requires
            r == ax * by,
    ;
    assert(t * t == (ay * ay) * (bx * bx)) by (nonlinear_arith)
        requires
            t == ay * bx,
    ;
    let a2x = ax * ax;
    let a2y = ay * ay;
    let b2x = bx * bx;
    let b2y = by * by;
    assert((a2x + a2y) * (b2x + b2y) == a2x * b2x + a2x * b2y + a2y * b2x + a2y * b2y) by (nonlinear_arith);
}

/// The square of the length of a vector is positive unless the vector is
/// zero.
proof fn lemma_length_positive(x: int, y: int)
    ensures
        x * x + y * y >= 0,
        x * x + y * y == 0 <==> x == 0 && y == 0,
{
    assert(x * x >= 0 && y * y >= 0) by (nonlinear_arith);
    assert(x * x == 0 <==> x == 0) by (nonlinear_arith);
    assert(y * y == 0 <==> y == 0) by (nonlinear_arith);
}

/// Two different points `u` and `w` of the line through `from` and `to`, of
/// which `w` does not come before `u` along the line: the point `p` lies on
/// the same side of the edge from `u` to `w` as of the line.
pub proof fn lemma_chain_visible(from: Point2, to: Point2, u: Point2, w: Point2, p: Point2)
    requires
        from != to,
        orient2d(from, to, u) == 0,
        orient2d(from, to, w) == 0,
        u != w,
        projection_along(from, to, u) <= projection_along(from, to, w),
    ensures
        orient2d(from, to, p) > 0 ==> orient2d(u, w, p) > 0,
        orient2d(from, to, p) < 0 ==> orient2d(w, u, p) > 0,
{
    let dx = to.x - from.x;
    let dy = to.y - from.y;
    let ex = w.x - u.x;
    let ey = w.y - u.y;
    let px = p.x - u.x;
    let py = p.y - u.y;
    let s = ex * dx + ey * dy;
    let c = ex * dy - ey * dx;
    let x = ex * py - ey * px;
    let y = px * dy - py * dx;
    let d2 = dx * dx + dy * dy;
    let e2 = ex * ex + ey * ey;
    assert(s == projection_along(from, to, w) - projection_along(from, to, u)) by (nonlinear_arith)
        requires
            s == (w.x - u.x) * (to.x - from.x) + (w.y - u.y) * (to.y - from.y),
    ;
    assert(c == orient2d(from, to, u) - orient2d(from, to, w)) by (nonlinear_arith)
        requires
            c == (w.x - u.x) * (to.y - from.y) - (w.y - u.y) * (to.x - from.x),
    ;
    assert(x == orient2d(u, w, p));
    assert(y == orient2d(from, to, u) - orient2d(from, to, p)) by (nonlinear_arith)
        requires
            y == (p.x - u.x) * (to.y - from.y) - (p.y - u.y) * (to.x - from.x),
    ;
    lemma_lagrange(ex, ey, dx, dy);
    lemma_length_positive(dx, dy);
    lemma_length_positive(ex, ey);
    assert(e2 * d2 == s * s + c * c);
    assert(c * c == 0) by (nonlinear_arith)
        requires
            c == 0,
    ;
    lemma_product_sign(e2, d2);
    lemma_product_sign(s, s);
    assert(s > 0);
    lemma_three_vectors(ex, ey, dx, dy, px, py);
    assert(c * px == 0) by (nonlinear_arith)
        requires
            c == 0,
    ;
    assert(c * py == 0) by (nonlinear_arith)
        requires
            c == 0,
    ;
    lemma_dot_of_combination(x, y, ex, ey, dx, dy, dx, dy);
    assert(y * s + x * d2 == 0);
    lemma_product_sign(y, s);
    lemma_product_sign(x, d2);
    lemma_side_reversed(u, w, p);
}


/// Three points of the line through `from` and `to` lie on one line.
pub proof fn lemma_collinear_transfer(from: Point2, to: Point2, u: Point2, w: Point2, q: Point2)
    requires
        from != to,
        orient2d(from, to, u) == 0,
        orient2d(from, to, w) == 0,
        orient2d(from, to, q) == 0,
    ensures
        orient2d(u, w, q) == 0,
{
    let dx = to.x - from.x;
    let dy = to.y - from.y;
    let ex = w.x - u.x;
    let ey = w.y - u.y;
    let gx = q.x - u.x;
    let gy = q.y - u.y;
    let z = ex * gy - ey * gx;
    let x = ex * dy - ey * dx;
    let y = dx * gy - dy * gx;
    assert(z == orient2d(u, w, q));
    assert(x == orient2d(from, to, u) - orient2d(from, to, w)) by (nonlinear_arith)
        requires
            x == (w.x - u.x) * (to.y - from.y) - (w.y - u.y) * (to.x - from.x),
    ;
    assert(y == orient2d(from, to, q) - orient2d(from, to, u)) by (nonlinear_arith)
        requires
            y == (to.x - from.x) * (q.y - u.y) - (to.y - from.y) * (q.x - u.x),
    ;
    lemma_three_vectors(ex, ey, gx, gy, dx, dy);
    assert(y * ex == 0) by (nonlinear_arith)
        requires
            y == 0,
    ;
    assert(x * gx == 0) by (nonlinear_arith)
        requires
            x == 0,
    ;
    assert(y * ey == 0) by (nonlinear_arith)
        requires
            y == 0,
    ;
    assert(x * gy == 0) by (nonlinear_arith)
        requires
            x == 0,
    ;
    lemma_product_sign(z, dx);
    lemma_product_sign(z, dy);
}

} // verus!
