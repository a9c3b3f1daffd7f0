//! 2D collision detection over the exact matrix engine.
//!
//! Shapes are a tagged union ([`Collider`]) with exhaustive dispatch, so
//! every pair of shape variants has a defined outcome: an algorithm, or an
//! explicit [`Error::UnsupportedOperation`], never a crash. All geometry is
//! exact rational arithmetic; where the classical formulation divides by a
//! length (a square root), the comparison is carried out on squares, which
//! is equivalent for the non-negative thresholds the contracts require.

use vstd::prelude::*;

verus! {

use crate::Error;
use crate::matrix::{Matrix, mat_shape};
use crate::rat::{
    Rat, lemma_add_cong, lemma_le_cong, lemma_mul_cong, lemma_norm, lemma_op_wf,
    lemma_rat_add_neg, lemma_rat_div_cancel, lemma_rat_eq_trans, lemma_rat_mul_assoc,
    lemma_rat_mul_comm, lemma_rat_mul_distrib, lemma_rat_mul_rotate, lemma_rat_regroup,
    lemma_rat_shuffle, lemma_rat_sub_antisym, lemma_rat_sub_distrib, lemma_rat_sub_of_add,
    lemma_step_add, lemma_step_div, lemma_step_mul, lemma_step_sub, lemma_sub_cong,
    lemma_zero_cong, rat_add, rat_div, rat_eq, rat_fits, rat_in_i64, rat_int, rat_le, rat_mul,
    rat_neg, rat_norm, rat_sub, rat_wf,
};

/// The two components of a column 2-vector, as specification rationals.
pub open spec fn vec2_of(m: Seq<Seq<(int, int)>>) -> ((int, int), (int, int)) {
    (m[0][0], m[1][0])
}

/// Two direction vectors are parallel: both horizontal, both vertical, or
/// their x/y ratios are exactly equal (compared by cross multiplication,
/// which is the same test without forming the quotients).
pub open spec fn spec_parallel(d1: ((int, int), (int, int)), d2: ((int, int), (int, int))) -> bool {
    (d1.1.0 == 0 && d2.1.0 == 0) || (d1.0.0 == 0 && d2.0.0 == 0) || (d1.1.0 != 0 && d2.1.0 != 0
        && rat_eq(rat_mul(d1.0, d2.1), rat_mul(d2.0, d1.1)))
}

/// The machine limit of the parallelism test.
pub open spec fn par_ok(d1: ((int, int), (int, int)), d2: ((int, int), (int, int))) -> bool {
    if (d1.1.0 == 0 && d2.1.0 == 0) || (d1.0.0 == 0 && d2.0.0 == 0) {
        true
    } else if d1.1.0 != 0 && d2.1.0 != 0 {
        rat_fits(rat_mul(d1.0, d2.1)) && rat_fits(rat_mul(d2.0, d1.1))
    } else {
        true
    }
}

/// Whether the point `p` lies on the line `pos + lambda * dir` within
/// threshold `t`: if the line is vertical, the horizontal offset is within
/// `t`; if horizontal, the vertical offset; otherwise the two parameter
/// estimates agree to within `t` times the direction length, compared on
/// squares.
pub open spec fn spec_line_point(
    pos: ((int, int), (int, int)),
    dir: ((int, int), (int, int)),
    p: ((int, int), (int, int)),
    t: (int, int),
) -> bool {
    if dir.0.0 == 0 {
        rat_le(rat_neg(t), rat_sub(pos.0, p.0)) && rat_le(rat_sub(pos.0, p.0), t)
    } else if dir.1.0 == 0 {
        rat_le(rat_neg(t), rat_sub(pos.1, p.1)) && rat_le(rat_sub(pos.1, p.1), t)
    } else {
        let lx = rat_div(rat_sub(p.0, pos.0), dir.0);
        let ly = rat_div(rat_sub(p.1, pos.1), dir.1);
        let df = rat_sub(lx, ly);
        rat_le(
            rat_mul(df, df),
            rat_mul(rat_mul(t, t), rat_add(rat_mul(dir.0, dir.0), rat_mul(dir.1, dir.1))),
        )
    }
}

/// The machine limit of the point-on-line test: every intermediate reduced
/// result is representable.
pub open spec fn lpc_ok(
    pos: ((int, int), (int, int)),
    dir: ((int, int), (int, int)),
    p: ((int, int), (int, int)),
    t: (int, int),
) -> bool {
    if dir.0.0 == 0 {
        rat_fits(rat_sub(pos.0, p.0))
    } else if dir.1.0 == 0 {
        rat_fits(rat_sub(pos.1, p.1))
    } else {
        let dx = rat_norm(rat_sub(p.0, pos.0));
        let lx = rat_norm(rat_div(dx, dir.0));
        let dy = rat_norm(rat_sub(p.1, pos.1));
        let ly = rat_norm(rat_div(dy, dir.1));
        let df = rat_norm(rat_sub(lx, ly));
        let sx = rat_norm(rat_mul(dir.0, dir.0));
        let sy = rat_norm(rat_mul(dir.1, dir.1));
        let sm = rat_norm(rat_add(sx, sy));
        let t2 = rat_norm(rat_mul(t, t));
        rat_fits(rat_sub(p.0, pos.0)) && rat_fits(rat_div(dx, dir.0)) && rat_fits(
            rat_sub(p.1, pos.1),
        ) && rat_fits(rat_div(dy, dir.1)) && rat_fits(rat_sub(lx, ly)) && rat_fits(
            rat_mul(df, df),
        ) && rat_fits(rat_mul(dir.0, dir.0)) && rat_fits(rat_mul(dir.1, dir.1)) && rat_fits(
            rat_add(sx, sy),
        ) && rat_fits(rat_mul(t, t)) && rat_fits(rat_mul(t2, sm))
    }
}

/// The ratio `dir.y / dir.x` of the reference line, the quantity the
/// closed-form line intersection divides by.
pub open spec fn ll_q(d1: ((int, int), (int, int))) -> (int, int) {
    rat_div(d1.1, d1.0)
}

/// Numerator of the closed-form solution:
/// `(p2.y - p1.y) - (d1.y/d1.x) * (p2.x - p1.x)`.
pub open spec fn ll_num(
    p1: ((int, int), (int, int)),
    p2: ((int, int), (int, int)),
    d1: ((int, int), (int, int)),
) -> (int, int) {
    rat_sub(rat_sub(p2.1, p1.1), rat_mul(ll_q(d1), rat_sub(p2.0, p1.0)))
}

/// Denominator of the closed-form solution:
/// `d2.x * (d1.y/d1.x) - d2.y`.
pub open spec fn ll_den(
    d1: ((int, int), (int, int)),
    d2: ((int, int), (int, int)),
) -> (int, int) {
    rat_sub(rat_mul(d2.0, ll_q(d1)), d2.1)
}

/// The parameter `b` with `p1 + a*d1 == p2 + b*d2` at the intersection.
pub open spec fn ll_b(
    p1: ((int, int), (int, int)),
    p2: ((int, int), (int, int)),
    d1: ((int, int), (int, int)),
    d2: ((int, int), (int, int)),
) -> (int, int) {
    rat_div(ll_num(p1, p2, d1), ll_den(d1, d2))
}

/// The machine limit of the steps up to and including the denominator.
pub open spec fn ll_ok_pre(
    p1: ((int, int), (int, int)),
    p2: ((int, int), (int, int)),
    d1: ((int, int), (int, int)),
    d2: ((int, int), (int, int)),
) -> bool {
    let q = rat_norm(rat_div(d1.1, d1.0));
    let dpx = rat_norm(rat_sub(p2.0, p1.0));
    let dpy = rat_norm(rat_sub(p2.1, p1.1));
    let qq = rat_norm(rat_mul(q, dpx));
    let num = rat_norm(rat_sub(dpy, qq));
    let dd = rat_norm(rat_mul(d2.0, q));
    rat_fits(rat_div(d1.1, d1.0)) && rat_fits(rat_sub(p2.0, p1.0)) && rat_fits(
        rat_sub(p2.1, p1.1),
    ) && rat_fits(rat_mul(q, dpx)) && rat_fits(rat_sub(dpy, qq)) && rat_fits(rat_mul(d2.0, q))
        && rat_fits(rat_sub(dd, d2.1))
}

/// The machine limit of the remaining steps: the parameter `b` and the
/// intersection point `p2 + b * d2`.
pub open spec fn ll_ok_post(
    p1: ((int, int), (int, int)),
    p2: ((int, int), (int, int)),
    d1: ((int, int), (int, int)),
    d2: ((int, int), (int, int)),
) -> bool {
    let q = rat_norm(rat_div(d1.1, d1.0));
    let dpx = rat_norm(rat_sub(p2.0, p1.0));
    let dpy = rat_norm(rat_sub(p2.1, p1.1));
    let qq = rat_norm(rat_mul(q, dpx));
    let num = rat_norm(rat_sub(dpy, qq));
    let dd = rat_norm(rat_mul(d2.0, q));
    let den = rat_norm(rat_sub(dd, d2.1));
    let b = rat_norm(rat_div(num, den));
    let ox = rat_norm(rat_mul(d2.0, b));
    let oy = rat_norm(rat_mul(d2.1, b));
    rat_fits(rat_div(num, den)) && rat_fits(rat_mul(d2.0, b)) && rat_fits(rat_add(p2.0, ox))
        && rat_fits(rat_mul(d2.1, b)) && rat_fits(rat_add(p2.1, oy))
}

/// Whether the point `p` lies on the boundary of the circle of centre `c`
/// and radius `r`, within threshold `t`: the distance to the centre is
/// between `r - t` and `r + t`, compared on squares.
pub open spec fn spec_circle_point(
    c: ((int, int), (int, int)),
    r: (int, int),
    p: ((int, int), (int, int)),
    t: (int, int),
) -> bool {
    let dd = rat_add(
        rat_mul(rat_sub(p.0, c.0), rat_sub(p.0, c.0)),
        rat_mul(rat_sub(p.1, c.1), rat_sub(p.1, c.1)),
    );
    let lo = rat_sub(r, t);
    let hi = rat_add(r, t);
    (rat_le(lo, rat_int(0)) || rat_le(rat_mul(lo, lo), dd)) && rat_le(dd, rat_mul(hi, hi))
}

/// The machine limit of the circle boundary test.
pub open spec fn cpc_ok(
    c: ((int, int), (int, int)),
    r: (int, int),
    p: ((int, int), (int, int)),
    t: (int, int),
) -> bool {
    let dx = rat_norm(rat_sub(p.0, c.0));
    let dy = rat_norm(rat_sub(p.1, c.1));
    let xx = rat_norm(rat_mul(dx, dx));
    let yy = rat_norm(rat_mul(dy, dy));
    let dd = rat_norm(rat_add(xx, yy));
    let lo = rat_norm(rat_sub(r, t));
    let hi = rat_norm(rat_add(r, t));
    rat_fits(rat_sub(p.0, c.0)) && rat_fits(rat_sub(p.1, c.1)) && rat_fits(rat_mul(dx, dx))
        && rat_fits(rat_mul(dy, dy)) && rat_fits(rat_add(xx, yy)) && rat_fits(rat_sub(r, t))
        && rat_fits(rat_add(r, t)) && rat_fits(rat_mul(lo, lo)) && rat_fits(rat_mul(hi, hi))
}

/// The exact cross product `(b - a) x (p - a)`: its sign says on which
/// side of the directed edge `a -> b` the point `p` lies.
pub open spec fn tri_cross(
    a: ((int, int), (int, int)),
    b: ((int, int), (int, int)),
    p: ((int, int), (int, int)),
) -> (int, int) {
    rat_sub(
        rat_mul(rat_sub(b.0, a.0), rat_sub(p.1, a.1)),
        rat_mul(rat_sub(b.1, a.1), rat_sub(p.0, a.0)),
    )
}

/// Whether `p` is within `t` of the edge *segment* from `a` to `b`: the
/// distance from `p` to the nearest point of the segment is at most `t`,
/// compared on squares. The projection of `p` onto the edge decides which
/// that nearest point is: before `a` (the projection parameter
/// `w.e / e.e` is at most 0) it is `a` itself; past `b` (the parameter is
/// at least 1, that is `w.e >= e.e`) it is `b`; in between it is the
/// perpendicular foot, whose distance is `|cross| / |e|`. A zero-length
/// edge falls into the first case: the distance to `a`.
pub open spec fn tri_edge_near(
    a: ((int, int), (int, int)),
    b: ((int, int), (int, int)),
    p: ((int, int), (int, int)),
    t: (int, int),
) -> bool {
    let ex = rat_sub(b.0, a.0);
    let ey = rat_sub(b.1, a.1);
    let wx = rat_sub(p.0, a.0);
    let wy = rat_sub(p.1, a.1);
    let dw = rat_add(rat_mul(wx, ex), rat_mul(wy, ey));
    let ee = rat_add(rat_mul(ex, ex), rat_mul(ey, ey));
    let t2 = rat_mul(t, t);
    if rat_le(dw, rat_int(0)) {
        rat_le(rat_add(rat_mul(wx, wx), rat_mul(wy, wy)), t2)
    } else if rat_le(ee, dw) {
        let vx = rat_sub(p.0, b.0);
        let vy = rat_sub(p.1, b.1);
        rat_le(rat_add(rat_mul(vx, vx), rat_mul(vy, vy)), t2)
    } else {
        let cr = tri_cross(a, b, p);
        rat_le(rat_mul(cr, cr), rat_mul(t2, ee))
    }
}

/// Whether `p` lies in the triangle `a b c` within threshold `t`: inside
/// (the three edge cross products share a sign), or within `t` of one of
/// the three boundary edge segments.
pub open spec fn spec_triangle_point(
    a: ((int, int), (int, int)),
    b: ((int, int), (int, int)),
    c: ((int, int), (int, int)),
    p: ((int, int), (int, int)),
    t: (int, int),
) -> bool {
    let c0 = tri_cross(a, b, p);
    let c1 = tri_cross(b, c, p);
    let c2 = tri_cross(c, a, p);
    let inside = (rat_le(rat_int(0), c0) && rat_le(rat_int(0), c1) && rat_le(rat_int(0), c2)) || (
    rat_le(c0, rat_int(0)) && rat_le(c1, rat_int(0)) && rat_le(c2, rat_int(0)));
    inside || tri_edge_near(a, b, p, t) || tri_edge_near(b, c, p, t) || tri_edge_near(c, a, p, t)
}

/// The machine limit of one edge probe: first the shared quantities
/// (edge and offset vectors, cross product, projection and squared
/// lengths), then the branch the projection selects.
pub open spec fn edge_ok(
    a: ((int, int), (int, int)),
    b: ((int, int), (int, int)),
    p: ((int, int), (int, int)),
    t: (int, int),
) -> bool {
    let ex = rat_norm(rat_sub(b.0, a.0));
    let ey = rat_norm(rat_sub(b.1, a.1));
    let wx = rat_norm(rat_sub(p.0, a.0));
    let wy = rat_norm(rat_sub(p.1, a.1));
    let c1 = rat_norm(rat_mul(ex, wy));
    let c2 = rat_norm(rat_mul(ey, wx));
    let cr = rat_norm(rat_sub(c1, c2));
    let q1 = rat_norm(rat_mul(wx, ex));
    let q2 = rat_norm(rat_mul(wy, ey));
    let dw = rat_norm(rat_add(q1, q2));
    let sx = rat_norm(rat_mul(ex, ex));
    let sy = rat_norm(rat_mul(ey, ey));
    let ee = rat_norm(rat_add(sx, sy));
    let t2 = rat_norm(rat_mul(t, t));
    rat_fits(rat_sub(b.0, a.0)) && rat_fits(rat_sub(b.1, a.1)) && rat_fits(rat_sub(p.0, a.0))
        && rat_fits(rat_sub(p.1, a.1)) && rat_fits(rat_mul(ex, wy)) && rat_fits(rat_mul(ey, wx))
        && rat_fits(rat_sub(c1, c2)) && rat_fits(rat_mul(wx, ex)) && rat_fits(rat_mul(wy, ey))
        && rat_fits(rat_add(q1, q2)) && rat_fits(rat_mul(ex, ex)) && rat_fits(rat_mul(ey, ey))
        && rat_fits(rat_add(sx, sy)) && rat_fits(rat_mul(t, t)) && (if rat_le(dw, rat_int(0)) {
        rat_fits(rat_mul(wx, wx)) && rat_fits(rat_mul(wy, wy)) && rat_fits(
            rat_add(rat_norm(rat_mul(wx, wx)), rat_norm(rat_mul(wy, wy))),
        )
    } else if rat_le(ee, dw) {
        let vx = rat_norm(rat_sub(p.0, b.0));
        let vy = rat_norm(rat_sub(p.1, b.1));
        rat_fits(rat_sub(p.0, b.0)) && rat_fits(rat_sub(p.1, b.1)) && rat_fits(rat_mul(vx, vx))
            && rat_fits(rat_mul(vy, vy)) && rat_fits(
            rat_add(rat_norm(rat_mul(vx, vx)), rat_norm(rat_mul(vy, vy))),
        )
    } else {
        rat_fits(rat_mul(cr, cr)) && rat_fits(rat_mul(t2, ee))
    })
}

/// The full outcome contract of the triangle inside test, probing the
/// edges in order.
pub open spec fn triangle_point_post(
    a: ((int, int), (int, int)),
    b: ((int, int), (int, int)),
    c: ((int, int), (int, int)),
    p: ((int, int), (int, int)),
    t: (int, int),
    r: Result<bool, Error>,
) -> bool {
    if !edge_ok(a, b, p, t) {
        r == Err::<bool, Error>(Error::NumericOverflow)
    } else if !edge_ok(b, c, p, t) {
        r == Err::<bool, Error>(Error::NumericOverflow)
    } else if !edge_ok(c, a, p, t) {
        r == Err::<bool, Error>(Error::NumericOverflow)
    } else {
        match r {
            Ok(hit) => hit == spec_triangle_point(a, b, c, p, t),
            Err(_) => false,
        }
    }
}

/// A parametric line `r = position + lambda * direction`; if `bounded`,
/// the intended range is `lambda` in `[0, 1]` (a segment). A known
/// limitation, kept deliberately: the point and intersection queries do
/// not yet honour `bounded`; the flag is carried and reported faithfully.
#[derive(Debug, Clone)]
pub struct LineCollider {
    position: Matrix<2, 1>,
    direction: Matrix<2, 1>,
    bounded: bool,
}

/// A circle of non-negative radius.
#[derive(Debug, Clone)]
pub struct CircleCollider {
    centre: Matrix<2, 1>,
    radius: Rat,
}

/// A triangle given by its three corners; collinear corners are allowed.
#[derive(Debug)]
pub struct TriangleCollider {
    points: Vec<Matrix<2, 1>>,
}

impl Clone for TriangleCollider {
    /// An independent copy denoting the same triangle.
    fn clone(&self) -> (r: Self)
        ensures
            r.corner(0) == self.corner(0),
            r.corner(1) == self.corner(1),
            r.corner(2) == self.corner(2),
    {
        proof {
            use_type_invariant(&*self);
        }
        let mut points: Vec<Matrix<2, 1>> = Vec::new();
        points.push(self.points[0].clone());
        points.push(self.points[1].clone());
        points.push(self.points[2].clone());
        TriangleCollider { points }
    }
}

/// The tagged union of the geometric primitives.
#[derive(Debug, Clone)]
pub enum Collider {
    Line(LineCollider),
    Circle(CircleCollider),
    Triangle(TriangleCollider),
}

/// Outcome of an intersection query: no intersection point (`Nothing`),
/// exactly one, a finite set, or infinitely many (coincident lines).
#[derive(Debug, Clone)]
pub enum CollisionResult {
    Nothing,
    One(Matrix<2, 1>),
    Many(Vec<Matrix<2, 1>>),
    Infinite,
}

impl CollisionResult {
    /// The intersection points as a list, where the set is finite and
    /// nonempty.
    pub fn as_vec(&self) -> (r: Option<Vec<Matrix<2, 1>>>)
        ensures
            match self {
                CollisionResult::Nothing => r is None,
                CollisionResult::One(p) => match r {
                    Some(v) => v@.len() == 1 && v@[0]@ == p@,
                    None => false,
                },
                CollisionResult::Many(ps) => match r {
                    Some(v) => v@.len() == ps@.len() && (forall|i: int|
                        0 <= i < ps@.len() ==> (#[trigger] v@[i])@ == ps@[i]@),
                    None => false,
                },
                CollisionResult::Infinite => r is None,
            },
    {
        match self {
            CollisionResult::Nothing => None,
            CollisionResult::One(p) => {
                let mut v: Vec<Matrix<2, 1>> = Vec::new();
                v.push(p.clone());
                Some(v)
            },
            CollisionResult::Many(ps) => {
                let mut v: Vec<Matrix<2, 1>> = Vec::new();
                let mut i: usize = 0;
                while i < ps.len()
                    invariant
                        i <= ps@.len(),
                        v@.len() == i,
                        forall|k: int| 0 <= k < i ==> (#[trigger] v@[k])@ == ps@[k]@,
                    decreases ps@.len() - i,
                {
                    v.push(ps[i].clone());
                    i += 1;
                }
                Some(v)
            },
            CollisionResult::Infinite => None,
        }
    }
}

impl LineCollider {
    /// The position, as a pair of specification rationals.
    pub closed spec fn pos(self) -> ((int, int), (int, int)) {
        vec2_of(self.position@)
    }

    /// The direction, as a pair of specification rationals.
    pub closed spec fn dir(self) -> ((int, int), (int, int)) {
        vec2_of(self.direction@)
    }

    /// Whether the line is a segment.
    pub closed spec fn is_bounded(self) -> bool {
        self.bounded
    }

    /// A line through `position` along `direction`.
    pub fn new(position: Matrix<2, 1>, direction: Matrix<2, 1>, bounded: bool) -> (r:
        LineCollider)
        ensures
            r.pos() == vec2_of(position@),
            r.dir() == vec2_of(direction@),
            r.is_bounded() == bounded,
    {
        LineCollider { position, direction, bounded }
    }

    /// A *bounded* line with endpoints `a` and `b`: position `a`,
    /// direction `b - a`. The precondition is only the machine limit on
    /// the two component differences.
    pub fn between_points(a: Matrix<2, 1>, b: Matrix<2, 1>) -> (r: LineCollider)
        requires
            rat_fits(rat_sub(vec2_of(b@).0, vec2_of(a@).0)),
            rat_fits(rat_sub(vec2_of(b@).1, vec2_of(a@).1)),
        ensures
            r.pos() == vec2_of(a@),
            rat_eq(r.dir().0, rat_sub(vec2_of(b@).0, vec2_of(a@).0)),
            rat_eq(r.dir().1, rat_sub(vec2_of(b@).1, vec2_of(a@).1)),
            r.is_bounded(),
    {
        let d = Self::direction_between(&a, &b);
        LineCollider { position: a, direction: d, bounded: true }
    }

    /// An *unbounded* line through `a` and `b`: position `a`, direction
    /// `b - a`, under the same machine limit as
    /// [`Self::between_points`].
    pub fn through_points(a: Matrix<2, 1>, b: Matrix<2, 1>) -> (r: LineCollider)
        requires
            rat_fits(rat_sub(vec2_of(b@).0, vec2_of(a@).0)),
            rat_fits(rat_sub(vec2_of(b@).1, vec2_of(a@).1)),
        ensures
            r.pos() == vec2_of(a@),
            rat_eq(r.dir().0, rat_sub(vec2_of(b@).0, vec2_of(a@).0)),
            rat_eq(r.dir().1, rat_sub(vec2_of(b@).1, vec2_of(a@).1)),
            !r.is_bounded(),
    {
        let d = Self::direction_between(&a, &b);
        LineCollider { position: a, direction: d, bounded: false }
    }

    /// The vector `b - a`.
    fn direction_between(a: &Matrix<2, 1>, b: &Matrix<2, 1>) -> (r: Matrix<2, 1>)
        requires
            rat_fits(rat_sub(vec2_of(b@).0, vec2_of(a@).0)),
            rat_fits(rat_sub(vec2_of(b@).1, vec2_of(a@).1)),
        ensures
            rat_eq(vec2_of(r@).0, rat_sub(vec2_of(b@).0, vec2_of(a@).0)),
            rat_eq(vec2_of(r@).1, rat_sub(vec2_of(b@).1, vec2_of(a@).1)),
    {
        proof {
            use_type_invariant(a);
            use_type_invariant(b);
            assert(rat_in_i64(a@[0][0]) && rat_in_i64(a@[1][0]) && rat_in_i64(b@[0][0])
                && rat_in_i64(b@[1][0]));
            lemma_op_wf(vec2_of(b@).0, vec2_of(a@).0);
            lemma_op_wf(vec2_of(b@).1, vec2_of(a@).1);
            lemma_norm(rat_sub(vec2_of(b@).0, vec2_of(a@).0));
            lemma_norm(rat_sub(vec2_of(b@).1, vec2_of(a@).1));
        }
        let dx = b.x().checked_sub(&a.x()).unwrap();
        let dy = b.y().checked_sub(&a.y()).unwrap();
        let mut rows: Vec<Vec<Rat>> = Vec::new();
        let mut r0: Vec<Rat> = Vec::new();
        r0.push(dx);
        rows.push(r0);
        let mut r1: Vec<Rat> = Vec::new();
        r1.push(dy);
        rows.push(r1);
        Matrix::<2, 1>::new(rows)
    }

    /// Exact parallelism test, as documented for [`spec_parallel`]. The
    /// precondition is only the machine limit on the two cross products.
    pub fn is_parallel(&self, other: &LineCollider) -> (r: bool)
        requires
            par_ok(self.dir(), other.dir()),
        ensures
            r == spec_parallel(self.dir(), other.dir()),
    {
        proof {
            use_type_invariant(&self.direction);
            use_type_invariant(&other.direction);
            assert(rat_in_i64(self.direction@[0][0]) && rat_in_i64(self.direction@[1][0]));
            assert(rat_in_i64(other.direction@[0][0]) && rat_in_i64(other.direction@[1][0]));
        }
        let x1 = self.direction.x();
        let y1 = self.direction.y();
        let x2 = other.direction.x();
        let y2 = other.direction.y();
        if y1.is_zero() && y2.is_zero() {
            true
        } else if x1.is_zero() && x2.is_zero() {
            true
        } else if !y1.is_zero() && !y2.is_zero() {
            let m1 = x1.checked_mul(&y2).unwrap();
            let m2 = x2.checked_mul(&y1).unwrap();
            proof {
                let a = rat_mul(x1@, y2@);
                let b = rat_mul(x2@, y1@);
                lemma_op_wf(x1@, y2@);
                lemma_op_wf(x2@, y1@);
                lemma_norm(a);
                lemma_norm(b);
                if rat_eq(m1@, m2@) {
                    lemma_rat_eq_trans(a, m1@, m2@);
                    lemma_rat_eq_trans(a, m2@, b);
                }
                if rat_eq(a, b) {
                    lemma_rat_eq_trans(m1@, a, b);
                    lemma_rat_eq_trans(m1@, b, m2@);
                }
            }
            m1 == m2
        } else {
            false
        }
    }
}

/// Parallelism is reflexive: every direction is parallel to itself.
pub proof fn lemma_parallel_refl(d: ((int, int), (int, int)))
    requires
        rat_wf(d.0),
        rat_wf(d.1),
    ensures
        spec_parallel(d, d),
{
}

/// Parallelism is symmetric: the test does not depend on the order of the
/// two directions.
pub proof fn lemma_parallel_sym(d1: ((int, int), (int, int)), d2: ((int, int), (int, int)))
    requires
        rat_wf(d1.0),
        rat_wf(d1.1),
        rat_wf(d2.0),
        rat_wf(d2.1),
    ensures
        spec_parallel(d1, d2) == spec_parallel(d2, d1),
{
}

/// The point `p2 + b * d2` lies on the line through `p2` along `d2`, for
/// every parameter `b`: its offset from `p2` and `d2` have a vanishing
/// cross product. In particular the intersection point that
/// [`line_line_post`] pins down lies on the second line.
pub proof fn lemma_offset_point_on_line(
    p2: ((int, int), (int, int)),
    d2: ((int, int), (int, int)),
    b: (int, int),
)
    requires
        rat_wf(p2.0),
        rat_wf(p2.1),
        rat_wf(d2.0),
        rat_wf(d2.1),
        rat_wf(b),
    ensures
        ({
            let px = rat_add(p2.0, rat_mul(d2.0, b));
            let py = rat_add(p2.1, rat_mul(d2.1, b));
            rat_eq(
                rat_sub(rat_mul(rat_sub(px, p2.0), d2.1), rat_mul(rat_sub(py, p2.1), d2.0)),
                rat_int(0),
            )
        }),
{
    let ox = rat_mul(d2.0, b);
    let oy = rat_mul(d2.1, b);
    let px = rat_add(p2.0, ox);
    let py = rat_add(p2.1, oy);
    lemma_op_wf(d2.0, b);
    lemma_op_wf(d2.1, b);
    lemma_op_wf(p2.0, ox);
    lemma_op_wf(p2.1, oy);
    lemma_op_wf(rat_add(p2.0, ox), p2.0);
    lemma_op_wf(rat_add(p2.1, oy), p2.1);
    // the offsets reduce back to ox and oy
    lemma_rat_sub_of_add(p2.0, ox);
    lemma_rat_sub_of_add(p2.1, oy);
    // so the cross product equals the cross product of (ox, oy) with d2
    lemma_mul_cong(rat_sub(px, p2.0), ox, d2.1, d2.1);
    lemma_mul_cong(rat_sub(py, p2.1), oy, d2.0, d2.0);
    lemma_op_wf(rat_sub(px, p2.0), d2.1);
    lemma_op_wf(rat_sub(py, p2.1), d2.0);
    lemma_op_wf(ox, d2.1);
    lemma_op_wf(oy, d2.0);
    lemma_sub_cong(
        rat_mul(rat_sub(px, p2.0), d2.1),
        rat_mul(ox, d2.1),
        rat_mul(rat_sub(py, p2.1), d2.0),
        rat_mul(oy, d2.0),
    );
    // and that cross product vanishes: both products have the same
    // numerator and the same denominator
    let lhs = rat_sub(rat_mul(ox, d2.1), rat_mul(oy, d2.0));
    assert((d2.0.0 * b.0) * d2.1.0 == (d2.1.0 * b.0) * d2.0.0) by (nonlinear_arith) {}
    assert((d2.0.1 * b.1) * d2.1.1 == (d2.1.1 * b.1) * d2.0.1) by (nonlinear_arith) {}
    assert(lhs.0 == 0);
    assert(rat_eq(lhs, rat_int(0)));
    lemma_op_wf(rat_mul(ox, d2.1), rat_mul(oy, d2.0));
    lemma_op_wf(
        rat_mul(rat_sub(px, p2.0), d2.1),
        rat_mul(rat_sub(py, p2.1), d2.0),
    );
    lemma_rat_eq_trans(
        rat_sub(rat_mul(rat_sub(px, p2.0), d2.1), rat_mul(rat_sub(py, p2.1), d2.0)),
        lhs,
        rat_int(0),
    );
}

/// The closed form really solves the system: for non-degenerate input,
/// the point `p2 + b * d2` with `b` from [`ll_b`] lies on the *first*
/// line as well — its offset from `p1` has a vanishing cross product with
/// `d1`. Together with [`lemma_offset_point_on_line`], the single point
/// that [`line_line_post`] pins down is the intersection of the two
/// lines.
pub proof fn lemma_closed_form_solves(
    p1: ((int, int), (int, int)),
    p2: ((int, int), (int, int)),
    d1: ((int, int), (int, int)),
    d2: ((int, int), (int, int)),
)
    requires
        rat_wf(p1.0),
        rat_wf(p1.1),
        rat_wf(p2.0),
        rat_wf(p2.1),
        rat_wf(d1.0),
        rat_wf(d1.1),
        rat_wf(d2.0),
        rat_wf(d2.1),
        d1.0.0 != 0,
        ll_den(d1, d2).0 != 0,
    ensures
        ({
            let b = ll_b(p1, p2, d1, d2);
            let px = rat_add(p2.0, rat_mul(d2.0, b));
            let py = rat_add(p2.1, rat_mul(d2.1, b));
            rat_eq(
                rat_sub(rat_mul(rat_sub(px, p1.0), d1.1), rat_mul(rat_sub(py, p1.1), d1.0)),
                rat_int(0),
            )
        }),
{
    let q = rat_div(d1.1, d1.0);
    let dpx = rat_sub(p2.0, p1.0);
    let dpy = rat_sub(p2.1, p1.1);
    let num = ll_num(p1, p2, d1);
    let den = ll_den(d1, d2);
    let b = ll_b(p1, p2, d1, d2);
    let ox = rat_mul(d2.0, b);
    let oy = rat_mul(d2.1, b);
    let px = rat_add(p2.0, ox);
    let py = rat_add(p2.1, oy);
    let ux = rat_sub(px, p1.0);
    let uy = rat_sub(py, p1.1);
    let a1 = rat_mul(dpx, d1.1);
    let a2 = rat_mul(ox, d1.1);
    let b1 = rat_mul(dpy, d1.0);
    let b2 = rat_mul(oy, d1.0);
    let m = rat_sub(a1, b1);
    let s = rat_sub(a2, b2);
    let kk = rat_sub(rat_mul(d2.0, d1.1), rat_mul(d2.1, d1.0));
    let goal = rat_sub(rat_mul(ux, d1.1), rat_mul(uy, d1.0));
    // well-formedness of every intermediate rational
    lemma_op_wf(d1.1, d1.0);
    lemma_op_wf(p2.0, p1.0);
    lemma_op_wf(p2.1, p1.1);
    lemma_op_wf(q, dpx);
    lemma_op_wf(dpy, rat_mul(q, dpx));
    lemma_op_wf(d2.0, q);
    lemma_op_wf(rat_mul(d2.0, q), d2.1);
    lemma_op_wf(num, den);
    lemma_op_wf(d2.0, b);
    lemma_op_wf(d2.1, b);
    lemma_op_wf(p2.0, ox);
    lemma_op_wf(p2.1, oy);
    lemma_op_wf(px, p1.0);
    lemma_op_wf(py, p1.1);
    lemma_op_wf(dpx, d1.1);
    lemma_op_wf(ox, d1.1);
    lemma_op_wf(dpy, d1.0);
    lemma_op_wf(oy, d1.0);
    lemma_op_wf(dpx, ox);
    lemma_op_wf(dpy, oy);
    lemma_op_wf(rat_add(dpx, ox), d1.1);
    lemma_op_wf(rat_add(dpy, oy), d1.0);
    lemma_op_wf(ux, d1.1);
    lemma_op_wf(uy, d1.0);
    lemma_op_wf(a1, a2);
    lemma_op_wf(b1, b2);
    lemma_op_wf(rat_add(a1, a2), rat_add(b1, b2));
    lemma_op_wf(a1, b1);
    lemma_op_wf(a2, b2);
    lemma_op_wf(m, s);
    lemma_op_wf(d2.0, d1.1);
    lemma_op_wf(d2.1, d1.0);
    lemma_op_wf(rat_mul(d2.0, d1.1), rat_mul(d2.1, d1.0));
    lemma_op_wf(kk, b);
    lemma_op_wf(den, d1.0);
    lemma_op_wf(num, d1.0);
    lemma_op_wf(rat_mul(ux, d1.1), rat_mul(uy, d1.0));
    lemma_op_wf(rat_mul(d2.0, d1.1), b);
    lemma_op_wf(rat_mul(d2.1, d1.0), b);
    lemma_op_wf(rat_mul(rat_mul(d2.0, d1.1), b), rat_mul(rat_mul(d2.1, d1.0), b));
    lemma_op_wf(rat_mul(d2.0, q), d1.0);
    lemma_op_wf(q, d1.0);
    lemma_op_wf(d2.0, rat_mul(q, d1.0));
    lemma_op_wf(rat_mul(rat_mul(d2.0, q), d1.0), rat_mul(d2.1, d1.0));
    lemma_op_wf(q, dpx);
    lemma_op_wf(rat_mul(q, dpx), d1.0);
    lemma_op_wf(rat_mul(q, d1.0), dpx);
    lemma_op_wf(d1.1, dpx);
    lemma_op_wf(b1, a1);
    lemma_op_wf(den, b);
    lemma_op_wf(b, den);
    lemma_op_wf(rat_mul(den, d1.0), b);
    lemma_op_wf(rat_mul(den, b), d1.0);
    lemma_op_wf(m, rat_neg(m));
    assert(rat_wf(rat_neg(m)));
    // the offsets from p1 split into the offset of p2 plus b * d2
    lemma_rat_shuffle(p2.0, ox, p1.0);
    lemma_rat_shuffle(p2.1, oy, p1.1);
    // multiply out both cross-product terms
    lemma_mul_cong(ux, rat_add(dpx, ox), d1.1, d1.1);
    lemma_rat_mul_distrib(dpx, ox, d1.1);
    lemma_rat_eq_trans(rat_mul(ux, d1.1), rat_mul(rat_add(dpx, ox), d1.1), rat_add(a1, a2));
    lemma_mul_cong(uy, rat_add(dpy, oy), d1.0, d1.0);
    lemma_rat_mul_distrib(dpy, oy, d1.0);
    lemma_rat_eq_trans(rat_mul(uy, d1.0), rat_mul(rat_add(dpy, oy), d1.0), rat_add(b1, b2));
    lemma_sub_cong(rat_mul(ux, d1.1), rat_add(a1, a2), rat_mul(uy, d1.0), rat_add(b1, b2));
    lemma_rat_regroup(a1, a2, b1, b2);
    lemma_rat_eq_trans(goal, rat_sub(rat_add(a1, a2), rat_add(b1, b2)), rat_add(m, s));
    // s denotes kk * b
    lemma_rat_mul_rotate(d2.0, b, d1.1);
    lemma_rat_mul_rotate(d2.1, b, d1.0);
    lemma_sub_cong(a2, rat_mul(rat_mul(d2.0, d1.1), b), b2, rat_mul(rat_mul(d2.1, d1.0), b));
    lemma_rat_sub_distrib(rat_mul(d2.0, d1.1), rat_mul(d2.1, d1.0), b);
    lemma_rat_eq_trans(
        s,
        rat_sub(rat_mul(rat_mul(d2.0, d1.1), b), rat_mul(rat_mul(d2.1, d1.0), b)),
        rat_mul(kk, b),
    );
    // den * d1.x denotes kk
    lemma_rat_sub_distrib(rat_mul(d2.0, q), d2.1, d1.0);
    lemma_rat_mul_assoc(d2.0, q, d1.0);
    lemma_rat_div_cancel(d1.1, d1.0);
    lemma_mul_cong(d2.0, d2.0, rat_mul(q, d1.0), d1.1);
    lemma_rat_eq_trans(
        rat_mul(rat_mul(d2.0, q), d1.0),
        rat_mul(d2.0, rat_mul(q, d1.0)),
        rat_mul(d2.0, d1.1),
    );
    lemma_sub_cong(
        rat_mul(rat_mul(d2.0, q), d1.0),
        rat_mul(d2.0, d1.1),
        rat_mul(d2.1, d1.0),
        rat_mul(d2.1, d1.0),
    );
    lemma_rat_eq_trans(
        rat_mul(den, d1.0),
        rat_sub(rat_mul(rat_mul(d2.0, q), d1.0), rat_mul(d2.1, d1.0)),
        kk,
    );
    // num * d1.x denotes b1 - a1
    lemma_rat_sub_distrib(dpy, rat_mul(q, dpx), d1.0);
    lemma_rat_mul_rotate(q, dpx, d1.0);
    lemma_mul_cong(rat_mul(q, d1.0), d1.1, dpx, dpx);
    lemma_rat_mul_comm(d1.1, dpx);
    lemma_rat_eq_trans(
        rat_mul(rat_mul(q, dpx), d1.0),
        rat_mul(rat_mul(q, d1.0), dpx),
        rat_mul(d1.1, dpx),
    );
    lemma_rat_eq_trans(rat_mul(rat_mul(q, dpx), d1.0), rat_mul(d1.1, dpx), a1);
    lemma_sub_cong(b1, b1, rat_mul(rat_mul(q, dpx), d1.0), a1);
    lemma_rat_eq_trans(
        rat_mul(num, d1.0),
        rat_sub(b1, rat_mul(rat_mul(q, dpx), d1.0)),
        rat_sub(b1, a1),
    );
    // kk * b denotes num * d1.x, hence b1 - a1, hence the negation of m
    lemma_mul_cong(kk, rat_mul(den, d1.0), b, b);
    lemma_rat_mul_rotate(den, d1.0, b);
    lemma_rat_mul_comm(den, b);
    lemma_rat_div_cancel(num, den);
    lemma_rat_eq_trans(rat_mul(den, b), rat_mul(b, den), num);
    lemma_mul_cong(rat_mul(den, b), num, d1.0, d1.0);
    lemma_rat_eq_trans(
        rat_mul(rat_mul(den, d1.0), b),
        rat_mul(rat_mul(den, b), d1.0),
        rat_mul(num, d1.0),
    );
    lemma_rat_eq_trans(rat_mul(kk, b), rat_mul(rat_mul(den, d1.0), b), rat_mul(num, d1.0));
    lemma_rat_eq_trans(rat_mul(kk, b), rat_mul(num, d1.0), rat_sub(b1, a1));
    lemma_rat_sub_antisym(a1, b1);
    lemma_rat_eq_trans(rat_mul(kk, b), rat_sub(b1, a1), rat_neg(m));
    lemma_rat_eq_trans(s, rat_mul(kk, b), rat_neg(m));
    // the two summands cancel
    lemma_add_cong(m, m, s, rat_neg(m));
    lemma_rat_add_neg(m);
    lemma_rat_eq_trans(goal, rat_add(m, s), rat_add(m, rat_neg(m)));
    lemma_rat_eq_trans(goal, rat_add(m, rat_neg(m)), rat_int(0));
}

/// The full outcome contract of the point-on-line query: the exact answer
/// where the machine scalars suffice, `NumericOverflow` exactly otherwise.
pub open spec fn line_point_post(
    pos: ((int, int), (int, int)),
    dir: ((int, int), (int, int)),
    p: ((int, int), (int, int)),
    t: (int, int),
    r: Result<bool, Error>,
) -> bool {
    if lpc_ok(pos, dir, p, t) {
        match r {
            Ok(b) => b == spec_line_point(pos, dir, p, t),
            Err(_) => false,
        }
    } else {
        r == Err::<bool, Error>(Error::NumericOverflow)
    }
}

/// The full outcome contract of the circle boundary query.
pub open spec fn circle_point_post(
    c: ((int, int), (int, int)),
    rad: (int, int),
    p: ((int, int), (int, int)),
    t: (int, int),
    r: Result<bool, Error>,
) -> bool {
    if cpc_ok(c, rad, p, t) {
        match r {
            Ok(b) => b == spec_circle_point(c, rad, p, t),
            Err(_) => false,
        }
    } else {
        r == Err::<bool, Error>(Error::NumericOverflow)
    }
}

/// The full outcome contract of the line-line intersection query, in the
/// order the algorithm decides: parallelism (coincident within threshold
/// gives infinitely many points, else none), then the degenerate cases the
/// closed form cannot handle (a vertical reference line, a zero
/// denominator), then the single intersection point `p2 + b * d2`.
pub open spec fn line_line_post(
    l1: LineCollider,
    l2: LineCollider,
    t: (int, int),
    r: Result<CollisionResult, Error>,
) -> bool {
    let p1 = l1.pos();
    let d1 = l1.dir();
    let p2 = l2.pos();
    let d2 = l2.dir();
    if !par_ok(d1, d2) {
        r == Err::<CollisionResult, Error>(Error::NumericOverflow)
    } else if spec_parallel(d1, d2) {
        if !lpc_ok(p2, d2, p1, t) {
            r == Err::<CollisionResult, Error>(Error::NumericOverflow)
        } else if spec_line_point(p2, d2, p1, t) {
            match r {
                Ok(CollisionResult::Infinite) => true,
                _ => false,
            }
        } else {
            match r {
                Ok(CollisionResult::Nothing) => true,
                _ => false,
            }
        }
    } else if d1.0.0 == 0 {
        r == Err::<CollisionResult, Error>(Error::DegenerateGeometry)
    } else if !ll_ok_pre(p1, p2, d1, d2) {
        r == Err::<CollisionResult, Error>(Error::NumericOverflow)
    } else if ll_den(d1, d2).0 == 0 {
        r == Err::<CollisionResult, Error>(Error::DegenerateGeometry)
    } else if !ll_ok_post(p1, p2, d1, d2) {
        r == Err::<CollisionResult, Error>(Error::NumericOverflow)
    } else {
        match r {
            Ok(CollisionResult::One(pt)) => mat_shape(pt@, 2, 1) && rat_eq(
                vec2_of(pt@).0,
                rat_add(p2.0, rat_mul(d2.0, ll_b(p1, p2, d1, d2))),
            ) && rat_eq(vec2_of(pt@).1, rat_add(p2.1, rat_mul(d2.1, ll_b(p1, p2, d1, d2)))),
            _ => false,
        }
    }
}

impl LineCollider {
    /// Whether `point` lies on the line within `threshold`, as documented
    /// for [`spec_line_point`]; the `bounded` flag is not consulted (a
    /// known, documented limitation). Reports `NumericOverflow` exactly when an
    /// intermediate reduced result does not fit the scalars.
    pub fn point_collision(&self, point: &Matrix<2, 1>, threshold: Rat) -> (r: Result<
        bool,
        Error,
    >)
        requires
            rat_le(rat_int(0), threshold@),
        ensures
            line_point_post(self.pos(), self.dir(), vec2_of(point@), threshold@, r),
    {
        proof {
            use_type_invariant(&self.position);
            use_type_invariant(&self.direction);
            use_type_invariant(point);
            use_type_invariant(threshold);
            assert(rat_in_i64(self.position@[0][0]) && rat_in_i64(self.position@[1][0]));
            assert(rat_in_i64(self.direction@[0][0]) && rat_in_i64(self.direction@[1][0]));
            assert(rat_in_i64(point@[0][0]) && rat_in_i64(point@[1][0]));
        }
        let ghost pos = self.pos();
        let ghost dir = self.dir();
        let ghost pp = vec2_of(point@);
        let ghost t = threshold@;
        let px = point.x();
        let py = point.y();
        let sx = self.position.x();
        let sy = self.position.y();
        let ex = self.direction.x();
        let ey = self.direction.y();
        if ex.is_zero() {
            let d = match sx.checked_sub(&px) {
                Some(v) => v,
                None => { return Err(Error::NumericOverflow);
                },
            };
            proof {
                lemma_op_wf(pos.0, pp.0);
                lemma_norm(rat_sub(pos.0, pp.0));
                lemma_le_cong(rat_neg(t), rat_neg(t), d@, rat_sub(pos.0, pp.0));
                lemma_le_cong(d@, rat_sub(pos.0, pp.0), t, t);
            }
            Ok(threshold.neg().le(&d) && d.le(&threshold))
        } else if ey.is_zero() {
            let d = match sy.checked_sub(&py) {
                Some(v) => v,
                None => { return Err(Error::NumericOverflow);
                },
            };
            proof {
                lemma_op_wf(pos.1, pp.1);
                lemma_norm(rat_sub(pos.1, pp.1));
                lemma_le_cong(rat_neg(t), rat_neg(t), d@, rat_sub(pos.1, pp.1));
                lemma_le_cong(d@, rat_sub(pos.1, pp.1), t, t);
            }
            Ok(threshold.neg().le(&d) && d.le(&threshold))
        } else {
            let ax = match px.checked_sub(&sx) {
                Some(v) => v,
                None => { return Err(Error::NumericOverflow);
                },
            };
            let lx = match ax.checked_div(&ex) {
                Some(v) => v,
                None => { return Err(Error::NumericOverflow);
                },
            };
            let ay = match py.checked_sub(&sy) {
                Some(v) => v,
                None => { return Err(Error::NumericOverflow);
                },
            };
            let ly = match ay.checked_div(&ey) {
                Some(v) => v,
                None => { return Err(Error::NumericOverflow);
                },
            };
            let df = match lx.checked_sub(&ly) {
                Some(v) => v,
                None => { return Err(Error::NumericOverflow);
                },
            };
            let d2v = match df.checked_mul(&df) {
                Some(v) => v,
                None => { return Err(Error::NumericOverflow);
                },
            };
            let sxx = match ex.checked_mul(&ex) {
                Some(v) => v,
                None => { return Err(Error::NumericOverflow);
                },
            };
            let syy = match ey.checked_mul(&ey) {
                Some(v) => v,
                None => { return Err(Error::NumericOverflow);
                },
            };
            let sm = match sxx.checked_add(&syy) {
                Some(v) => v,
                None => { return Err(Error::NumericOverflow);
                },
            };
            let t2 = match threshold.checked_mul(&threshold) {
                Some(v) => v,
                None => { return Err(Error::NumericOverflow);
                },
            };
            let rhs = match t2.checked_mul(&sm) {
                Some(v) => v,
                None => { return Err(Error::NumericOverflow);
                },
            };
            proof {
                let ilx = rat_div(rat_sub(pp.0, pos.0), dir.0);
                let ily = rat_div(rat_sub(pp.1, pos.1), dir.1);
                let idf = rat_sub(ilx, ily);
                let irhs = rat_mul(rat_mul(t, t), rat_add(rat_mul(dir.0, dir.0), rat_mul(dir.1, dir.1)));
                lemma_op_wf(pp.0, pos.0);
                lemma_norm(rat_sub(pp.0, pos.0));
                lemma_step_div(ax@, rat_sub(pp.0, pos.0), dir.0, dir.0, lx@);
                lemma_op_wf(pp.1, pos.1);
                lemma_norm(rat_sub(pp.1, pos.1));
                lemma_step_div(ay@, rat_sub(pp.1, pos.1), dir.1, dir.1, ly@);
                lemma_step_sub(lx@, ilx, ly@, ily, df@);
                lemma_step_mul(df@, idf, df@, idf, d2v@);
                lemma_step_mul(dir.0, dir.0, dir.0, dir.0, sxx@);
                lemma_step_mul(dir.1, dir.1, dir.1, dir.1, syy@);
                lemma_step_add(sxx@, rat_mul(dir.0, dir.0), syy@, rat_mul(dir.1, dir.1), sm@);
                lemma_step_mul(t, t, t, t, t2@);
                lemma_step_mul(
                    t2@,
                    rat_mul(t, t),
                    sm@,
                    rat_add(rat_mul(dir.0, dir.0), rat_mul(dir.1, dir.1)),
                    rhs@,
                );
                lemma_le_cong(d2v@, rat_mul(idf, idf), rhs@, irhs);
            }
            Ok(d2v.le(&rhs))
        }
    }

    /// Intersection with another collider. Line-line intersection follows
    /// the closed form documented for [`line_line_post`]; the other shape
    /// pairs are explicit `UnsupportedOperation` failures.
    pub fn collision(&self, other: &Collider, threshold: Rat) -> (r: Result<
        CollisionResult,
        Error,
    >)
        requires
            rat_le(rat_int(0), threshold@),
        ensures
            match other {
                Collider::Line(l2) => line_line_post(*self, *l2, threshold@, r),
                _ => r == Err::<CollisionResult, Error>(Error::UnsupportedOperation),
            },
    {
        match other {
            Collider::Line(line) => self.collision_with_line(line, threshold),
            Collider::Circle(_) => Err(Error::UnsupportedOperation),
            Collider::Triangle(_) => Err(Error::UnsupportedOperation),
        }
    }

    /// Line-line intersection, as documented for [`line_line_post`].
    pub fn collision_with_line(&self, other: &LineCollider, threshold: Rat) -> (r: Result<
        CollisionResult,
        Error,
    >)
        requires
            rat_le(rat_int(0), threshold@),
        ensures
            line_line_post(*self, *other, threshold@, r),
    {
        proof {
            use_type_invariant(&self.position);
            use_type_invariant(&self.direction);
            use_type_invariant(&other.position);
            use_type_invariant(&other.direction);
            use_type_invariant(threshold);
            assert(rat_in_i64(self.position@[0][0]) && rat_in_i64(self.position@[1][0]));
            assert(rat_in_i64(self.direction@[0][0]) && rat_in_i64(self.direction@[1][0]));
            assert(rat_in_i64(other.position@[0][0]) && rat_in_i64(other.position@[1][0]));
            assert(rat_in_i64(other.direction@[0][0]) && rat_in_i64(other.direction@[1][0]));
        }
        let ghost p1 = self.pos();
        let ghost d1 = self.dir();
        let ghost p2 = other.pos();
        let ghost d2 = other.dir();
        let ghost t = threshold@;
        let x1 = self.direction.x();
        let y1 = self.direction.y();
        let x2 = other.direction.x();
        let y2 = other.direction.y();
        // parallelism, with the quotient comparison done by cross
        // multiplication
        let parallel: bool;
        if (y1.is_zero() && y2.is_zero()) || (x1.is_zero() && x2.is_zero()) {
            parallel = true;
        } else if !y1.is_zero() && !y2.is_zero() {
            let m1 = match x1.checked_mul(&y2) {
                Some(v) => v,
                None => { return Err(Error::NumericOverflow);
                },
            };
            let m2 = match x2.checked_mul(&y1) {
                Some(v) => v,
                None => { return Err(Error::NumericOverflow);
                },
            };
            proof {
                let a = rat_mul(d1.0, d2.1);
                let b = rat_mul(d2.0, d1.1);
                lemma_op_wf(d1.0, d2.1);
                lemma_op_wf(d2.0, d1.1);
                lemma_norm(a);
                lemma_norm(b);
                if rat_eq(m1@, m2@) {
                    lemma_rat_eq_trans(a, m1@, m2@);
                    lemma_rat_eq_trans(a, m2@, b);
                }
                if rat_eq(a, b) {
                    lemma_rat_eq_trans(m1@, a, b);
                    lemma_rat_eq_trans(m1@, b, m2@);
                }
            }
            parallel = m1 == m2;
        } else {
            parallel = false;
        }
        if parallel {
            match other.point_collision(&self.position, threshold) {
                Ok(true) => Ok(CollisionResult::Infinite),
                Ok(false) => Ok(CollisionResult::Nothing),
                Err(e) => Err(e),
            }
        } else {
            if x1.is_zero() {
                return Err(Error::DegenerateGeometry);
            }
            let p1x = self.position.x();
            let p1y = self.position.y();
            let p2x = other.position.x();
            let p2y = other.position.y();
            let q = match y1.checked_div(&x1) {
                Some(v) => v,
                None => { return Err(Error::NumericOverflow);
                },
            };
            let dpx = match p2x.checked_sub(&p1x) {
                Some(v) => v,
                None => { return Err(Error::NumericOverflow);
                },
            };
            let dpy = match p2y.checked_sub(&p1y) {
                Some(v) => v,
                None => { return Err(Error::NumericOverflow);
                },
            };
            let qq = match q.checked_mul(&dpx) {
                Some(v) => v,
                None => { return Err(Error::NumericOverflow);
                },
            };
            let num = match dpy.checked_sub(&qq) {
                Some(v) => v,
                None => { return Err(Error::NumericOverflow);
                },
            };
            let dd = match x2.checked_mul(&q) {
                Some(v) => v,
                None => { return Err(Error::NumericOverflow);
                },
            };
            let den = match dd.checked_sub(&y2) {
                Some(v) => v,
                None => { return Err(Error::NumericOverflow);
                },
            };
            proof {
                let iq = ll_q(d1);
                let idpx = rat_sub(p2.0, p1.0);
                let idpy = rat_sub(p2.1, p1.1);
                let iqq = rat_mul(iq, idpx);
                let inum = ll_num(p1, p2, d1);
                let idd = rat_mul(d2.0, iq);
                let iden = ll_den(d1, d2);
                lemma_op_wf(d1.1, d1.0);
                lemma_norm(rat_div(d1.1, d1.0));
                lemma_op_wf(p2.0, p1.0);
                lemma_norm(idpx);
                lemma_op_wf(p2.1, p1.1);
                lemma_norm(idpy);
                lemma_step_mul(q@, iq, dpx@, idpx, qq@);
                lemma_step_sub(dpy@, idpy, qq@, iqq, num@);
                lemma_step_mul(x2@, d2.0, q@, iq, dd@);
                lemma_step_sub(dd@, idd, y2@, d2.1, den@);
                lemma_zero_cong(den@, iden);
            }
            if den.is_zero() {
                return Err(Error::DegenerateGeometry);
            }
            let b = match num.checked_div(&den) {
                Some(v) => v,
                None => { return Err(Error::NumericOverflow);
                },
            };
            let ox = match x2.checked_mul(&b) {
                Some(v) => v,
                None => { return Err(Error::NumericOverflow);
                },
            };
            let rx = match p2x.checked_add(&ox) {
                Some(v) => v,
                None => { return Err(Error::NumericOverflow);
                },
            };
            let oy = match y2.checked_mul(&b) {
                Some(v) => v,
                None => { return Err(Error::NumericOverflow);
                },
            };
            let ry = match p2y.checked_add(&oy) {
                Some(v) => v,
                None => { return Err(Error::NumericOverflow);
                },
            };
            proof {
                let inum = ll_num(p1, p2, d1);
                let iden = ll_den(d1, d2);
                let ib = ll_b(p1, p2, d1, d2);
                let iox = rat_mul(d2.0, ib);
                let ioy = rat_mul(d2.1, ib);
                lemma_step_div(num@, inum, den@, iden, b@);
                lemma_step_mul(x2@, d2.0, b@, ib, ox@);
                lemma_step_add(p2x@, p2.0, ox@, iox, rx@);
                lemma_step_mul(y2@, d2.1, b@, ib, oy@);
                lemma_step_add(p2y@, p2.1, oy@, ioy, ry@);
            }
            let mut rows: Vec<Vec<Rat>> = Vec::new();
            let mut r0: Vec<Rat> = Vec::new();
            r0.push(rx);
            rows.push(r0);
            let mut r1: Vec<Rat> = Vec::new();
            r1.push(ry);
            rows.push(r1);
            let pt = Matrix::<2, 1>::new(rows);
            Ok(CollisionResult::One(pt))
        }
    }
}

impl CircleCollider {
    /// The centre, as a pair of specification rationals.
    pub closed spec fn ctr(self) -> ((int, int), (int, int)) {
        vec2_of(self.centre@)
    }

    /// The radius.
    pub closed spec fn rad(self) -> (int, int) {
        self.radius@
    }

    /// A circle of non-negative radius around `centre`.
    pub fn new(centre: Matrix<2, 1>, radius: Rat) -> (r: CircleCollider)
        requires
            rat_le(rat_int(0), radius@),
        ensures
            r.ctr() == vec2_of(centre@),
            r.rad() == radius@,
    {
        CircleCollider { centre, radius }
    }

    /// Whether `point` lies on the circle's boundary within `threshold`,
    /// as documented for [`spec_circle_point`]: the boundary-only
    /// semantics, chosen for consistency with the line's boundary test.
    /// Reports `NumericOverflow` exactly when an intermediate reduced
    /// result does not fit the scalars.
    pub fn point_collision(&self, point: &Matrix<2, 1>, threshold: Rat) -> (r: Result<
        bool,
        Error,
    >)
        requires
            rat_le(rat_int(0), threshold@),
        ensures
            circle_point_post(self.ctr(), self.rad(), vec2_of(point@), threshold@, r),
    {
        proof {
            use_type_invariant(&self.centre);
            use_type_invariant(self.radius);
            use_type_invariant(point);
            use_type_invariant(threshold);
            assert(rat_in_i64(self.centre@[0][0]) && rat_in_i64(self.centre@[1][0]));
            assert(rat_in_i64(point@[0][0]) && rat_in_i64(point@[1][0]));
        }
        let ghost c = self.ctr();
        let ghost rad = self.rad();
        let ghost pp = vec2_of(point@);
        let ghost t = threshold@;
        let px = point.x();
        let py = point.y();
        let cx = self.centre.x();
        let cy = self.centre.y();
        let dx = match px.checked_sub(&cx) {
            Some(v) => v,
            None => { return Err(Error::NumericOverflow);
            },
        };
        let dy = match py.checked_sub(&cy) {
            Some(v) => v,
            None => { return Err(Error::NumericOverflow);
            },
        };
        let xx = match dx.checked_mul(&dx) {
            Some(v) => v,
            None => { return Err(Error::NumericOverflow);
            },
        };
        let yy = match dy.checked_mul(&dy) {
            Some(v) => v,
            None => { return Err(Error::NumericOverflow);
            },
        };
        let dd = match xx.checked_add(&yy) {
            Some(v) => v,
            None => { return Err(Error::NumericOverflow);
            },
        };
        let lo = match self.radius.checked_sub(&threshold) {
            Some(v) => v,
            None => { return Err(Error::NumericOverflow);
            },
        };
        let hi = match self.radius.checked_add(&threshold) {
            Some(v) => v,
            None => { return Err(Error::NumericOverflow);
            },
        };
        let lo2 = match lo.checked_mul(&lo) {
            Some(v) => v,
            None => { return Err(Error::NumericOverflow);
            },
        };
        let hi2 = match hi.checked_mul(&hi) {
            Some(v) => v,
            None => { return Err(Error::NumericOverflow);
            },
        };
        proof {
            let idx = rat_sub(pp.0, c.0);
            let idy = rat_sub(pp.1, c.1);
            let ixx = rat_mul(idx, idx);
            let iyy = rat_mul(idy, idy);
            let idd = rat_add(ixx, iyy);
            let ilo = rat_sub(rad, t);
            let ihi = rat_add(rad, t);
            lemma_op_wf(pp.0, c.0);
            lemma_norm(idx);
            lemma_op_wf(pp.1, c.1);
            lemma_norm(idy);
            lemma_step_mul(dx@, idx, dx@, idx, xx@);
            lemma_step_mul(dy@, idy, dy@, idy, yy@);
            lemma_step_add(xx@, ixx, yy@, iyy, dd@);
            lemma_op_wf(rad, t);
            lemma_norm(ilo);
            lemma_norm(ihi);
            lemma_step_mul(lo@, ilo, lo@, ilo, lo2@);
            lemma_step_mul(hi@, ihi, hi@, ihi, hi2@);
            lemma_le_cong(lo@, ilo, rat_int(0), rat_int(0));
            lemma_le_cong(lo2@, rat_mul(ilo, ilo), dd@, idd);
            lemma_le_cong(dd@, idd, hi2@, rat_mul(ihi, ihi));
        }
        let zero = Rat::from_int(0);
        Ok((lo.le(&zero) || lo2.le(&dd)) && dd.le(&hi2))
    }

    /// Circle intersection algorithms are not provided: an explicit,
    /// typed failure, never a crash.
    pub fn collision(&self, other: &Collider, threshold: Rat) -> (r: Result<
        CollisionResult,
        Error,
    >)
        requires
            rat_le(rat_int(0), threshold@),
        ensures
            r == Err::<CollisionResult, Error>(Error::UnsupportedOperation),
    {
        Err(Error::UnsupportedOperation)
    }
}

impl TriangleCollider {
    /// A triangle always has exactly three corners.
    #[verifier::type_invariant]
    closed spec fn tri_inv(self) -> bool {
        self.points@.len() == 3
    }

    /// Corner `i`, as the view of its column vector.
    pub closed spec fn corner(self, i: int) -> Seq<Seq<(int, int)>> {
        self.points@[i]@
    }

    /// A triangle from exactly three corners; any other count is a
    /// `DimensionMismatch`. Collinear corners are allowed.
    pub fn new(points: Vec<Matrix<2, 1>>) -> (r: Result<TriangleCollider, Error>)
        ensures
            points@.len() == 3 ==> (match r {
                Ok(tc) => tc.corner(0) == points@[0]@ && tc.corner(1) == points@[1]@
                    && tc.corner(2) == points@[2]@,
                Err(_) => false,
            }),
            points@.len() != 3 ==> r == Err::<TriangleCollider, Error>(Error::DimensionMismatch),
    {
        if points.len() != 3 {
            return Err(Error::DimensionMismatch);
        }
        Ok(TriangleCollider { points })
    }

    /// Whether `point` lies inside the triangle or within `threshold` of
    /// one of its edges, as documented for [`spec_triangle_point`].
    /// Reports `NumericOverflow` exactly when an intermediate reduced
    /// result does not fit the scalars.
    pub fn point_collision(&self, point: &Matrix<2, 1>, threshold: Rat) -> (r: Result<
        bool,
        Error,
    >)
        requires
            rat_le(rat_int(0), threshold@),
        ensures
            triangle_point_post(
                vec2_of(self.corner(0)),
                vec2_of(self.corner(1)),
                vec2_of(self.corner(2)),
                vec2_of(point@),
                threshold@,
                r,
            ),
    {
        proof {
            use_type_invariant(&*self);
        }
        let e0 = match edge_probe(&self.points[0], &self.points[1], point, threshold) {
            Ok(v) => v,
            Err(e) => { return Err(e);
            },
        };
        let e1 = match edge_probe(&self.points[1], &self.points[2], point, threshold) {
            Ok(v) => v,
            Err(e) => { return Err(e);
            },
        };
        let e2 = match edge_probe(&self.points[2], &self.points[0], point, threshold) {
            Ok(v) => v,
            Err(e) => { return Err(e);
            },
        };
        let inside = (e0.0 && e1.0 && e2.0) || (e0.1 && e1.1 && e2.1);
        Ok(inside || e0.2 || e1.2 || e2.2)
    }

    /// Triangle intersection algorithms are not provided: an explicit,
    /// typed failure, never a crash.
    pub fn collision(&self, other: &Collider, threshold: Rat) -> (r: Result<
        CollisionResult,
        Error,
    >)
        requires
            rat_le(rat_int(0), threshold@),
        ensures
            r == Err::<CollisionResult, Error>(Error::UnsupportedOperation),
    {
        Err(Error::UnsupportedOperation)
    }
}

/// Probe the point `p` against the edge `a -> b`: its side of the edge
/// (cross product sign, both comparisons) and whether it is within `t` of
/// the edge segment.
fn edge_probe(a: &Matrix<2, 1>, b: &Matrix<2, 1>, p: &Matrix<2, 1>, t: Rat) -> (r: Result<
    (bool, bool, bool),
    Error,
>)
    ensures
        edge_ok(vec2_of(a@), vec2_of(b@), vec2_of(p@), t@) ==> (match r {
            Ok(v) => {
                let cr = tri_cross(vec2_of(a@), vec2_of(b@), vec2_of(p@));
                &&& v.0 == rat_le(rat_int(0), cr)
                &&& v.1 == rat_le(cr, rat_int(0))
                &&& v.2 == tri_edge_near(vec2_of(a@), vec2_of(b@), vec2_of(p@), t@)
            },
            Err(_) => false,
        }),
        !edge_ok(vec2_of(a@), vec2_of(b@), vec2_of(p@), t@) ==> r == Err::<
            (bool, bool, bool),
            Error,
        >(Error::NumericOverflow),
{
    proof {
        use_type_invariant(a);
        use_type_invariant(b);
        use_type_invariant(p);
        use_type_invariant(t);
        assert(rat_in_i64(a@[0][0]) && rat_in_i64(a@[1][0]));
        assert(rat_in_i64(b@[0][0]) && rat_in_i64(b@[1][0]));
        assert(rat_in_i64(p@[0][0]) && rat_in_i64(p@[1][0]));
    }
    let ghost av = vec2_of(a@);
    let ghost bv = vec2_of(b@);
    let ghost pv = vec2_of(p@);
    let ghost tv = t@;
    let ghost iex = rat_sub(bv.0, av.0);
    let ghost iey = rat_sub(bv.1, av.1);
    let ghost iwx = rat_sub(pv.0, av.0);
    let ghost iwy = rat_sub(pv.1, av.1);
    let ghost icr = tri_cross(av, bv, pv);
    let ghost idw = rat_add(rat_mul(iwx, iex), rat_mul(iwy, iey));
    let ghost iee = rat_add(rat_mul(iex, iex), rat_mul(iey, iey));
    let ghost it2 = rat_mul(tv, tv);
    let ex = match b.x().checked_sub(&a.x()) {
        Some(v) => v,
        None => { return Err(Error::NumericOverflow);
        },
    };
    let ey = match b.y().checked_sub(&a.y()) {
        Some(v) => v,
        None => { return Err(Error::NumericOverflow);
        },
    };
    let wx = match p.x().checked_sub(&a.x()) {
        Some(v) => v,
        None => { return Err(Error::NumericOverflow);
        },
    };
    let wy = match p.y().checked_sub(&a.y()) {
        Some(v) => v,
        None => { return Err(Error::NumericOverflow);
        },
    };
    let c1 = match ex.checked_mul(&wy) {
        Some(v) => v,
        None => { return Err(Error::NumericOverflow);
        },
    };
    let c2 = match ey.checked_mul(&wx) {
        Some(v) => v,
        None => { return Err(Error::NumericOverflow);
        },
    };
    let cr = match c1.checked_sub(&c2) {
        Some(v) => v,
        None => { return Err(Error::NumericOverflow);
        },
    };
    let q1 = match wx.checked_mul(&ex) {
        Some(v) => v,
        None => { return Err(Error::NumericOverflow);
        },
    };
    let q2 = match wy.checked_mul(&ey) {
        Some(v) => v,
        None => { return Err(Error::NumericOverflow);
        },
    };
    let dw = match q1.checked_add(&q2) {
        Some(v) => v,
        None => { return Err(Error::NumericOverflow);
        },
    };
    let sx = match ex.checked_mul(&ex) {
        Some(v) => v,
        None => { return Err(Error::NumericOverflow);
        },
    };
    let sy = match ey.checked_mul(&ey) {
        Some(v) => v,
        None => { return Err(Error::NumericOverflow);
        },
    };
    let ee = match sx.checked_add(&sy) {
        Some(v) => v,
        None => { return Err(Error::NumericOverflow);
        },
    };
    let t2 = match t.checked_mul(&t) {
        Some(v) => v,
        None => { return Err(Error::NumericOverflow);
        },
    };
    proof {
        lemma_op_wf(bv.0, av.0);
        lemma_norm(iex);
        lemma_op_wf(bv.1, av.1);
        lemma_norm(iey);
        lemma_op_wf(pv.0, av.0);
        lemma_norm(iwx);
        lemma_op_wf(pv.1, av.1);
        lemma_norm(iwy);
        lemma_step_mul(ex@, iex, wy@, iwy, c1@);
        lemma_step_mul(ey@, iey, wx@, iwx, c2@);
        lemma_step_sub(c1@, rat_mul(iex, iwy), c2@, rat_mul(iey, iwx), cr@);
        lemma_step_mul(wx@, iwx, ex@, iex, q1@);
        lemma_step_mul(wy@, iwy, ey@, iey, q2@);
        lemma_step_add(q1@, rat_mul(iwx, iex), q2@, rat_mul(iwy, iey), dw@);
        lemma_step_mul(ex@, iex, ex@, iex, sx@);
        lemma_step_mul(ey@, iey, ey@, iey, sy@);
        lemma_step_add(sx@, rat_mul(iex, iex), sy@, rat_mul(iey, iey), ee@);
        lemma_step_mul(t@, tv, t@, tv, t2@);
        lemma_le_cong(rat_int(0), rat_int(0), cr@, icr);
        lemma_le_cong(cr@, icr, rat_int(0), rat_int(0));
        lemma_le_cong(dw@, idw, rat_int(0), rat_int(0));
        lemma_le_cong(ee@, iee, dw@, idw);
    }
    let zero = Rat::from_int(0);
    let side_pos = zero.le(&cr);
    let side_neg = cr.le(&zero);
    if dw.le(&zero) {
        // the nearest point of the segment is `a`
        let wxx = match wx.checked_mul(&wx) {
            Some(v) => v,
            None => { return Err(Error::NumericOverflow);
            },
        };
        let wyy = match wy.checked_mul(&wy) {
            Some(v) => v,
            None => { return Err(Error::NumericOverflow);
            },
        };
        let ww = match wxx.checked_add(&wyy) {
            Some(v) => v,
            None => { return Err(Error::NumericOverflow);
            },
        };
        proof {
            lemma_step_mul(wx@, iwx, wx@, iwx, wxx@);
            lemma_step_mul(wy@, iwy, wy@, iwy, wyy@);
            lemma_step_add(wxx@, rat_mul(iwx, iwx), wyy@, rat_mul(iwy, iwy), ww@);
            lemma_le_cong(ww@, rat_add(rat_mul(iwx, iwx), rat_mul(iwy, iwy)), t2@, it2);
        }
        Ok((side_pos, side_neg, ww.le(&t2)))
    } else if ee.le(&dw) {
        // the nearest point of the segment is `b`
        let ghost ivx = rat_sub(pv.0, bv.0);
        let ghost ivy = rat_sub(pv.1, bv.1);
        let vx = match p.x().checked_sub(&b.x()) {
            Some(v) => v,
            None => { return Err(Error::NumericOverflow);
            },
        };
        let vy = match p.y().checked_sub(&b.y()) {
            Some(v) => v,
            None => { return Err(Error::NumericOverflow);
            },
        };
        let vxx = match vx.checked_mul(&vx) {
            Some(v) => v,
            None => { return Err(Error::NumericOverflow);
            },
        };
        let vyy = match vy.checked_mul(&vy) {
            Some(v) => v,
            None => { return Err(Error::NumericOverflow);
            },
        };
        let vv = match vxx.checked_add(&vyy) {
            Some(v) => v,
            None => { return Err(Error::NumericOverflow);
            },
        };
        proof {
            lemma_op_wf(pv.0, bv.0);
            lemma_norm(ivx);
            lemma_op_wf(pv.1, bv.1);
            lemma_norm(ivy);
            lemma_step_mul(vx@, ivx, vx@, ivx, vxx@);
            lemma_step_mul(vy@, ivy, vy@, ivy, vyy@);
            lemma_step_add(vxx@, rat_mul(ivx, ivx), vyy@, rat_mul(ivy, ivy), vv@);
            lemma_le_cong(vv@, rat_add(rat_mul(ivx, ivx), rat_mul(ivy, ivy)), t2@, it2);
        }
        Ok((side_pos, side_neg, vv.le(&t2)))
    } else {
        // the nearest point is the perpendicular foot on the edge
        let cr2 = match cr.checked_mul(&cr) {
            Some(v) => v,
            None => { return Err(Error::NumericOverflow);
            },
        };
        let rhs = match t2.checked_mul(&ee) {
            Some(v) => v,
            None => { return Err(Error::NumericOverflow);
            },
        };
        proof {
            lemma_step_mul(cr@, icr, cr@, icr, cr2@);
            lemma_step_mul(t2@, it2, ee@, iee, rhs@);
            lemma_le_cong(cr2@, rat_mul(icr, icr), rhs@, rat_mul(it2, iee));
        }
        Ok((side_pos, side_neg, cr2.le(&rhs)))
    }
}

impl Collider {
    /// Intersection of any two shapes: every variant pair has a defined
    /// outcome, either the line-line algorithm or an explicit
    /// `UnsupportedOperation`.
    pub fn collision(&self, other: &Collider, threshold: Rat) -> (r: Result<
        CollisionResult,
        Error,
    >)
        requires
            rat_le(rat_int(0), threshold@),
        ensures
            match (self, other) {
                (Collider::Line(l1), Collider::Line(l2)) => line_line_post(
                    *l1,
                    *l2,
                    threshold@,
                    r,
                ),
                _ => r == Err::<CollisionResult, Error>(Error::UnsupportedOperation),
            },
    {
        match self {
            Collider::Line(line) => line.collision(other, threshold),
            Collider::Circle(circle) => circle.collision(other, threshold),
            Collider::Triangle(triangle) => triangle.collision(other, threshold),
        }
    }

    /// Whether `point` lies on the shape within `threshold`, with each
    /// variant's documented semantics.
    pub fn point_collision(&self, point: &Matrix<2, 1>, threshold: Rat) -> (r: Result<
        bool,
        Error,
    >)
        requires
            rat_le(rat_int(0), threshold@),
        ensures
            match self {
                Collider::Line(l) => line_point_post(
                    l.pos(),
                    l.dir(),
                    vec2_of(point@),
                    threshold@,
                    r,
                ),
                Collider::Circle(c) => circle_point_post(
                    c.ctr(),
                    c.rad(),
                    vec2_of(point@),
                    threshold@,
                    r,
                ),
                Collider::Triangle(tc) => triangle_point_post(
                    vec2_of(tc.corner(0)),
                    vec2_of(tc.corner(1)),
                    vec2_of(tc.corner(2)),
                    vec2_of(point@),
                    threshold@,
                    r,
                ),
            },
    {
        match self {
            Collider::Line(line) => line.point_collision(point, threshold),
            Collider::Circle(circle) => circle.point_collision(point, threshold),
            Collider::Triangle(triangle) => triangle.point_collision(point, threshold),
        }
    }
}

} // verus!
