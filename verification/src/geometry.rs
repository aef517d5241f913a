//! The semicircle predicate: whether every point of a finite set lies within
//! some common closed half-plane bounded by a line through the origin.

use vstd::prelude::*;
use vstd::arithmetic::mul::lemma_mul_is_associative;
use vstd::arithmetic::mul::lemma_mul_is_commutative;
use vstd::arithmetic::mul::lemma_mul_is_distributive_add;
use vstd::arithmetic::mul::lemma_mul_is_distributive_add_other_way;
use vstd::arithmetic::mul::lemma_mul_is_distributive_sub;
use vstd::arithmetic::mul::lemma_mul_is_distributive_sub_other_way;

verus! {

/// A point of the plane, as fixed-point integer coordinates measured from the
/// disk's center.
#[derive(Clone, Copy, PartialEq, Eq, Structural, Debug)]
pub struct Point {
    pub x: i32,
    pub y: i32,
}

impl View for Point {
    type V = (int, int);

    open spec fn view(&self) -> (int, int) {
        (self.x as int, self.y as int)
    }
}

impl Point {
    pub fn new(x: i32, y: i32) -> (p: Point)
        ensures
            p@ == (x as int, y as int),
    {
        Point { x, y }
    }
}

/// z-component of the 2D cross product of the vectors from the origin to `a`
/// and to `b`; its sign says on which side of the line through the origin and
/// `b` the point `a` lies.
pub open spec fn cross(a: (int, int), b: (int, int)) -> int {
    a.0 * b.1 - a.1 * b.0
}

/// The coordinates of each point, as mathematical integers.
pub open spec fn views_of(ps: Seq<Point>) -> Seq<(int, int)> {
    Seq::new(ps.len(), |i: int| ps[i]@)
}

pub open spec fn all_cross_nonneg(ps: Seq<(int, int)>, r: (int, int)) -> bool {
    forall|j: int| 0 <= j < ps.len() ==> cross(ps[j], r) >= 0
}

pub open spec fn all_cross_nonpos(ps: Seq<(int, int)>, r: (int, int)) -> bool {
    forall|j: int| 0 <= j < ps.len() ==> cross(ps[j], r) <= 0
}

/// Every point of `ps` lies in one of the two closed half-planes bounded by
/// the line through the origin and `r`.
pub open spec fn one_side_of(ps: Seq<(int, int)>, r: (int, int)) -> bool {
    all_cross_nonneg(ps, r) || all_cross_nonpos(ps, r)
}

/// All points lie within some common semicircle: at least one point of the
/// sequence serves as a reference whose ray through the origin has every
/// point on one side (boundary included).
pub open spec fn same_semicircle(ps: Seq<(int, int)>) -> bool {
    exists|i: int| 0 <= i < ps.len() && one_side_of(ps, ps[i])
}

/// The product of two `i32` values stays within one quarter of the `i64`
/// range, so a difference of two such products fits well inside `i128`.
proof fn lemma_i32_prod_bounds(u: int, v: int)
    by (nonlinear_arith)
    requires
        -0x8000_0000 <= u <= 0x7fff_ffff,
        -0x8000_0000 <= v <= 0x7fff_ffff,
    ensures
        -0x4000_0000_0000_0000 <= u * v <= 0x4000_0000_0000_0000,
{
}

/// The cross product of two points, exactly; `i128` holds any difference of
/// two products of `i32` coordinates.
pub fn cross_val(a: Point, b: Point) -> (r: i128)
    ensures
        r as int == cross(a@, b@),
{
    proof {
        lemma_i32_prod_bounds(a.x as int, b.y as int);
        lemma_i32_prod_bounds(a.y as int, b.x as int);
    }
    (a.x as i128) * (b.y as i128) - (a.y as i128) * (b.x as i128)
}

/// Decides whether all points lie within some common semicircle, trying each
/// point in turn as the reference ray.
pub fn is_in_same_semicircle(points: &Vec<Point>) -> (r: bool)
    requires
        points@.len() >= 2,
    ensures
        r == same_semicircle(views_of(points@)),
{
    let ghost vs = views_of(points@);
    let n = points.len();
    let mut i: usize = 0;
    while i < n
        invariant
            n == points@.len(),
            vs == views_of(points@),
            vs.len() == n,
            forall|k: int| 0 <= k < n ==> vs[k] == points@[k]@,
            i <= n,
            forall|k: int| 0 <= k < i ==> !one_side_of(vs, vs[k]),
        decreases n - i,
    {
        let mut all_nonneg: bool = true;
        let mut all_nonpos: bool = true;
        let mut j: usize = 0;
        while j < n
            invariant
                n == points@.len(),
                vs == views_of(points@),
                vs.len() == n,
                forall|k: int| 0 <= k < n ==> vs[k] == points@[k]@,
                i < n,
                j <= n,
                all_nonneg ==> (forall|k: int| 0 <= k < j ==> cross(vs[k], vs[i as int]) >= 0),
                !all_nonneg ==> (exists|k: int| 0 <= k < j && cross(vs[k], vs[i as int]) < 0),
                all_nonpos ==> (forall|k: int| 0 <= k < j ==> cross(vs[k], vs[i as int]) <= 0),
                !all_nonpos ==> (exists|k: int| 0 <= k < j && cross(vs[k], vs[i as int]) > 0),
            decreases n - j,
        {
            let c = cross_val(points[j], points[i]);
            proof {
                assert(c as int == cross(vs[j as int], vs[i as int]));
            }
            if c < 0 {
                all_nonneg = false;
            }
            if c > 0 {
                all_nonpos = false;
            }
            j += 1;
        }
        if all_nonneg || all_nonpos {
            assert(one_side_of(vs, vs[i as int]));
            return true;
        }
        proof {
            assert(!all_cross_nonneg(vs, vs[i as int]));
            assert(!all_cross_nonpos(vs, vs[i as int]));
        }
        i += 1;
    }
    false
}

/// The image of `p` under the linear map with matrix [[c, -s], [s, c]]: a
/// rotation combined with a uniform scaling, whenever (c, s) is not the zero
/// vector. Every rotation by an angle with rational sine and cosine arises
/// this way after clearing denominators.
pub open spec fn rotate(p: (int, int), c: int, s: int) -> (int, int) {
    (c * p.0 - s * p.1, s * p.0 + c * p.1)
}

pub open spec fn rotate_all(ps: Seq<(int, int)>, c: int, s: int) -> Seq<(int, int)> {
    Seq::new(ps.len(), |i: int| rotate(ps[i], c, s))
}

/// Exchanging the middle factors of a four-factor product:
/// (p*q)*(r*t) == (p*r)*(q*t).
proof fn lemma_swap_mid(p: int, q: int, r: int, t: int)
    ensures
        (p * q) * (r * t) == (p * r) * (q * t),
{
    lemma_mul_is_associative(p, q, r * t);
    lemma_mul_is_associative(q, r, t);
    lemma_mul_is_commutative(q, r);
    lemma_mul_is_associative(r, q, t);
    lemma_mul_is_associative(p, r, q * t);
}

/// Rotating both arguments scales the cross product by the factor c*c + s*s.
proof fn lemma_cross_rotate(a: (int, int), b: (int, int), c: int, s: int)
    ensures
        cross(rotate(a, c, s), rotate(b, c, s)) == (c * c + s * s) * cross(a, b),
{
    let (x, y) = a;
    let (u, v) = b;
    let r0 = c * x - s * y;
    let r1 = s * x + c * y;
    lemma_mul_is_distributive_add(r0, s * u, c * v);
    lemma_mul_is_distributive_sub_other_way(s * u, c * x, s * y);
    lemma_mul_is_distributive_sub_other_way(c * v, c * x, s * y);
    lemma_swap_mid(c, x, s, u);
    lemma_swap_mid(s, y, s, u);
    lemma_swap_mid(c, x, c, v);
    lemma_swap_mid(s, y, c, v);
    assert(r0 * (s * u + c * v)
        == (c * s) * (x * u) - (s * s) * (y * u) + (c * c) * (x * v) - (s * c) * (y * v));
    lemma_mul_is_distributive_sub(r1, c * u, s * v);
    lemma_mul_is_distributive_add_other_way(c * u, s * x, c * y);
    lemma_mul_is_distributive_add_other_way(s * v, s * x, c * y);
    lemma_swap_mid(s, x, c, u);
    lemma_swap_mid(c, y, c, u);
    lemma_swap_mid(s, x, s, v);
    lemma_swap_mid(c, y, s, v);
    assert(r1 * (c * u - s * v)
        == (s * c) * (x * u) + (c * c) * (y * u) - (s * s) * (x * v) - (c * s) * (y * v));
    lemma_mul_is_commutative(c, s);
    lemma_mul_is_distributive_sub(c * c + s * s, x * v, y * u);
    lemma_mul_is_distributive_add_other_way(x * v, c * c, s * s);
    lemma_mul_is_distributive_add_other_way(y * u, c * c, s * s);
}

/// Rotating both arguments keeps the sign of the cross product, whenever the
/// rotation vector (c, s) is nonzero.
proof fn lemma_rotate_sign(a: (int, int), b: (int, int), c: int, s: int)
    requires
        c * c + s * s > 0,
    ensures
        (cross(rotate(a, c, s), rotate(b, c, s)) >= 0) <==> (cross(a, b) >= 0),
        (cross(rotate(a, c, s), rotate(b, c, s)) <= 0) <==> (cross(a, b) <= 0),
{
    lemma_cross_rotate(a, b, c, s);
    let m = c * c + s * s;
    let x = cross(a, b);
    assert(((m * x >= 0) <==> (x >= 0)) && ((m * x <= 0) <==> (x <= 0))) by (nonlinear_arith)
        requires
            m > 0,
    ;
}

/// Law: if all points lie within a common semicircle, they still do after
/// rotating every point by a common angle. The rotation is given by a nonzero
/// integer vector (c, s); it scales every cross product by the positive
/// factor c*c + s*s, so every sign test comes out the same.
pub proof fn lemma_rotation_invariance(ps: Seq<(int, int)>, c: int, s: int)
    requires
        same_semicircle(ps),
        c * c + s * s > 0,
    ensures
        same_semicircle(rotate_all(ps, c, s)),
{
    let rs = rotate_all(ps, c, s);
    let i = choose|i: int| 0 <= i < ps.len() && one_side_of(ps, ps[i]);
    if all_cross_nonneg(ps, ps[i]) {
        assert forall|j: int| 0 <= j < rs.len() implies cross(rs[j], rs[i]) >= 0 by {
            lemma_rotate_sign(ps[j], ps[i], c, s);
        }
        assert(all_cross_nonneg(rs, rs[i]));
    } else {
        assert forall|j: int| 0 <= j < rs.len() implies cross(rs[j], rs[i]) <= 0 by {
            lemma_rotate_sign(ps[j], ps[i], c, s);
        }
        assert(all_cross_nonpos(rs, rs[i]));
    }
    assert(one_side_of(rs, rs[i]));
}

/// Law: any two points lie within a common semicircle. The first point serves
/// as the reference: its cross product against itself is zero, and the other
/// point's cross product has some sign, so one of the two half-planes holds
/// both points.
pub proof fn lemma_two_points(ps: Seq<(int, int)>)
    requires
        ps.len() == 2,
    ensures
        same_semicircle(ps),
{
    let r = ps[0];
    assert(r.0 * r.1 - r.1 * r.0 == 0) by (nonlinear_arith);
    assert(cross(r, r) == 0);
    if cross(ps[1], r) >= 0 {
        assert(all_cross_nonneg(ps, r));
    } else {
        assert(all_cross_nonpos(ps, r));
    }
    assert(one_side_of(ps, ps[0]));
}

/// The closed quarter-plane of nonnegative coordinates.
pub open spec fn in_first_quadrant(p: (int, int)) -> bool {
    p.0 >= 0 && p.1 >= 0
}

/// Sidedness against points of the closed first quadrant is transitive when
/// the middle point is not the origin.
proof fn lemma_cross_trans_first_quadrant(a: (int, int), b: (int, int), c: (int, int))
    requires
        in_first_quadrant(a),
        in_first_quadrant(b),
        in_first_quadrant(c),
        !(b.0 == 0 && b.1 == 0),
        cross(a, b) >= 0,
        cross(b, c) >= 0,
    ensures
        cross(a, c) >= 0,
{
    if b.1 > 0 {
        assert(a.0 * b.1 * c.1 >= a.1 * b.0 * c.1) by (nonlinear_arith)
            requires
                c.1 >= 0,
                a.0 * b.1 - a.1 * b.0 >= 0,
        ;
        assert(a.1 * b.0 * c.1 >= a.1 * b.1 * c.0) by (nonlinear_arith)
            requires
                a.1 >= 0,
                b.0 * c.1 - b.1 * c.0 >= 0,
        ;
        assert(b.1 * (a.0 * c.1 - a.1 * c.0) >= 0) by (nonlinear_arith)
            requires
                a.0 * b.1 * c.1 >= a.1 * b.0 * c.1,
                a.1 * b.0 * c.1 >= a.1 * b.1 * c.0,
        ;
        assert(a.0 * c.1 - a.1 * c.0 >= 0) by (nonlinear_arith)
            requires
                b.1 > 0,
                b.1 * (a.0 * c.1 - a.1 * c.0) >= 0,
        ;
    } else {
        assert(b.0 > 0);
        assert(a.1 == 0) by (nonlinear_arith)
            requires
                a.1 >= 0,
                b.0 > 0,
                b.1 == 0,
                a.0 * b.1 - a.1 * b.0 >= 0,
        ;
        assert(a.0 * c.1 - a.1 * c.0 >= 0) by (nonlinear_arith)
            requires
                a.0 >= 0,
                c.1 >= 0,
                a.1 == 0,
        ;
    }
}

/// Among points of the closed first quadrant some point is extremal: every
/// point of the sequence has a nonnegative cross product against it.
proof fn lemma_first_quadrant_witness(ps: Seq<(int, int)>)
    requires
        ps.len() >= 1,
        forall|j: int| 0 <= j < ps.len() ==> in_first_quadrant(ps[j]),
    ensures
        exists|i: int| 0 <= i < ps.len() && all_cross_nonneg(ps, ps[i]),
    decreases ps.len(),
{
    let last = ps.len() - 1;
    let q = ps[last];
    assert(q.0 * q.1 - q.1 * q.0 == 0) by (nonlinear_arith);
    assert(cross(q, q) == 0);
    if ps.len() == 1 {
        assert(all_cross_nonneg(ps, ps[0]));
    } else {
        let pre = ps.drop_last();
        assert(forall|j: int| 0 <= j < pre.len() ==> in_first_quadrant(pre[j]));
        lemma_first_quadrant_witness(pre);
        let i = choose|i: int| 0 <= i < pre.len() && all_cross_nonneg(pre, pre[i]);
        assert(pre[i] == ps[i]);
        if cross(q, ps[i]) >= 0 {
            assert forall|j: int| 0 <= j < ps.len() implies cross(ps[j], ps[i]) >= 0 by {
                if j < last {
                    assert(cross(pre[j], pre[i]) >= 0);
                }
            }
            assert(all_cross_nonneg(ps, ps[i]));
        } else {
            assert(!(ps[i].0 == 0 && ps[i].1 == 0)) by {
                if ps[i].0 == 0 && ps[i].1 == 0 {
                    assert(cross(q, ps[i]) == q.0 * 0 - q.1 * 0);
                }
            }
            assert(ps[i].0 * q.1 - ps[i].1 * q.0 == -(q.0 * ps[i].1 - q.1 * ps[i].0))
                by (nonlinear_arith);
            assert(cross(ps[i], q) >= 0);
            assert forall|j: int| 0 <= j < ps.len() implies cross(ps[j], q) >= 0 by {
                if j < last {
                    assert(cross(pre[j], pre[i]) >= 0);
                    lemma_cross_trans_first_quadrant(ps[j], ps[i], q);
                }
            }
            assert(all_cross_nonneg(ps, ps[last]));
        }
    }
}

/// Law: points that all lie in the closed first quadrant always lie within a
/// common semicircle; the quadrant spans a right angle, which fits inside any
/// half-plane through one of its extremal points. By rotation invariance the
/// same holds of any quadrant.
pub proof fn lemma_first_quadrant_same_semicircle(ps: Seq<(int, int)>)
    requires
        ps.len() >= 1,
        forall|j: int| 0 <= j < ps.len() ==> in_first_quadrant(ps[j]),
    ensures
        same_semicircle(ps),
{
    lemma_first_quadrant_witness(ps);
    let i = choose|i: int| 0 <= i < ps.len() && all_cross_nonneg(ps, ps[i]);
    assert(one_side_of(ps, ps[i]));
}

} // verus!
