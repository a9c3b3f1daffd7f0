//! Exact rational scalars.
//!
//! At the specification level a rational is a pair `(int, int)` of numerator
//! and denominator with a positive denominator; two pairs denote the same
//! number when they are cross-multiplication equal. The executable type
//! [`Rat`] keeps the pair in `i64` fields, reduced by their greatest common
//! divisor so that chained arithmetic stays small in practice. Operations
//! whose exact result has no reduced representation within `i64` report that
//! by returning `None`; the contracts say precisely when that happens.

use vstd::prelude::*;

verus! {

use vstd::arithmetic::div_mod::*;
use vstd::arithmetic::mul::*;

/// Absolute value of a mathematical integer.
pub open spec fn iabs(x: int) -> int {
    if x < 0 {
        -x
    } else {
        x
    }
}

/// A specification-level rational is well formed when its denominator is
/// positive.
pub open spec fn rat_wf(a: (int, int)) -> bool {
    a.1 > 0
}

/// Cross-multiplication equality: `a` and `b` denote the same rational.
pub open spec fn rat_eq(a: (int, int), b: (int, int)) -> bool {
    a.0 * b.1 == b.0 * a.1
}

/// `a <= b` as rationals (valid for positive denominators).
pub open spec fn rat_le(a: (int, int), b: (int, int)) -> bool {
    a.0 * b.1 <= b.0 * a.1
}

/// `a < b` as rationals (valid for positive denominators).
pub open spec fn rat_lt(a: (int, int), b: (int, int)) -> bool {
    a.0 * b.1 < b.0 * a.1
}

/// The exact sum of two rationals.
pub open spec fn rat_add(a: (int, int), b: (int, int)) -> (int, int) {
    (a.0 * b.1 + b.0 * a.1, a.1 * b.1)
}

/// The exact difference of two rationals.
pub open spec fn rat_sub(a: (int, int), b: (int, int)) -> (int, int) {
    (a.0 * b.1 - b.0 * a.1, a.1 * b.1)
}

/// The exact product of two rationals.
pub open spec fn rat_mul(a: (int, int), b: (int, int)) -> (int, int) {
    (a.0 * b.0, a.1 * b.1)
}

/// The exact quotient of two rationals, with the sign moved to the
/// numerator so that the denominator stays positive. Meaningful only for
/// `b.0 != 0`.
pub open spec fn rat_div(a: (int, int), b: (int, int)) -> (int, int) {
    if b.0 >= 0 {
        (a.0 * b.1, a.1 * b.0)
    } else {
        (-(a.0 * b.1), a.1 * -b.0)
    }
}

/// The exact negation of a rational.
pub open spec fn rat_neg(a: (int, int)) -> (int, int) {
    (-a.0, a.1)
}

/// The rational denoting the integer `n`.
pub open spec fn rat_int(n: int) -> (int, int) {
    (n, 1)
}

/// Greatest common divisor by Euclid's recursion; `gcd(a, 0) == a`.
pub open spec fn gcd(a: nat, b: nat) -> nat
    decreases b,
{
    if b == 0 {
        a
    } else {
        gcd(b, a % b)
    }
}

/// The canonical (reduced) representative of a rational pair with a
/// positive denominator.
pub open spec fn rat_norm(p: (int, int)) -> (int, int) {
    let g = gcd(iabs(p.0) as nat, p.1 as nat) as int;
    (p.0 / g, p.1 / g)
}

/// Whether the reduced representative of `p` fits the `i64` fields of
/// [`Rat`]. This is the machine limit of the library: every operation
/// whose exact result satisfies it succeeds.
pub open spec fn rat_fits(p: (int, int)) -> bool {
    let q = rat_norm(p);
    iabs(q.0) <= i64::MAX as int && q.1 <= i64::MAX as int
}

/// `gcd` of `a` and a positive `b` is positive and divides both.
pub proof fn lemma_gcd_divides(a: nat, b: nat)
    ensures
        b > 0 ==> gcd(a, b) >= 1 && a % gcd(a, b) == 0 && b % gcd(a, b) == 0,
        b == 0 ==> gcd(a, b) == a,
    decreases b,
{
    if b > 0 {
        let r = a % b;
        lemma_gcd_divides(b, r);
        let g = gcd(b, r);
        assert(gcd(a, b) == g);
        if r == 0 {
            assert(g == b);
            lemma_mod_self_0(b as int);
        } else {
            // g divides b and r; a == b * (a / b) + r, so g divides a.
            lemma_fundamental_div_mod(a as int, b as int);
            lemma_fundamental_div_mod(b as int, g as int);
            lemma_fundamental_div_mod(r as int, g as int);
            let k = (b as int / g as int) * (a as int / b as int) + (r as int / g as int);
            assert(a as int == k * g as int) by (nonlinear_arith)
                requires
                    a as int == b as int * (a as int / b as int) + r as int,
                    b as int == g as int * (b as int / g as int) + b as int % g as int,
                    r as int == g as int * (r as int / g as int) + r as int % g as int,
                    b as int % g as int == 0,
                    r as int % g as int == 0,
                    k == (b as int / g as int) * (a as int / b as int) + (r as int / g as int),
            {}
            lemma_mod_multiples_basic(k, g as int);
        }
    }
}

/// A divisor of a positive number is at most that number.
proof fn lemma_divisor_le(a: nat, g: nat)
    requires
        a >= 1,
        g >= 1,
        a % g == 0,
    ensures
        g <= a,
        a as int / g as int >= 1,
{
    lemma_fundamental_div_mod(a as int, g as int);
    let q = a as int / g as int;
    assert(a as int == g as int * q);
    assert(q >= 1 && g <= a) by (nonlinear_arith)
        requires
            a as int == g as int * q,
            a >= 1,
            g >= 1,
    {}
}

/// Exact division: if `g` divides `n` then `g * (n / g) == n`, also for
/// negative `n`.
proof fn lemma_exact_div(n: int, g: int)
    requires
        g >= 1,
        iabs(n) % g == 0,
    ensures
        n == g * (n / g),
        iabs(n / g) == iabs(n) / g,
{
    let m = iabs(n);
    lemma_fundamental_div_mod(m, g);
    let q = m / g;
    assert(m == g * q);
    lemma_div_pos_is_pos(m, g);
    if n >= 0 {
        assert(n == g * (n / g));
    } else {
        // n == -m == g * (-q), so n / g == -q exactly.
        assert(n == (-q) * g + 0) by (nonlinear_arith)
            requires
                m == g * q,
                n == -m,
        {}
        lemma_fundamental_div_mod_converse(n, g, -q, 0);
        assert(n / g == -q);
        assert(n == g * (n / g)) by (nonlinear_arith)
            requires
                m == g * q,
                n == -m,
                n / g == -q,
        {}
    }
}

/// Reduction keeps the value: the canonical representative is a well formed
/// rational equal to the original, with components no larger in magnitude.
pub proof fn lemma_norm(p: (int, int))
    requires
        p.1 >= 1,
    ensures
        rat_norm(p).1 >= 1,
        rat_eq(rat_norm(p), p),
        iabs(rat_norm(p).0) <= iabs(p.0),
        rat_norm(p).1 <= p.1,
{
    let na = iabs(p.0) as nat;
    let d = p.1 as nat;
    lemma_gcd_divides(na, d);
    let g = gcd(na, d) as int;
    lemma_divisor_le(d, gcd(na, d));
    lemma_exact_div(p.1, g);
    lemma_exact_div(p.0, g);
    let q = rat_norm(p);
    assert(q.0 == p.0 / g && q.1 == p.1 / g);
    assert(q.0 * p.1 == p.0 * q.1) by (nonlinear_arith)
        requires
            p.0 == g * q.0,
            p.1 == g * q.1,
    {}
    lemma_div_is_ordered_by_denominator(p.1, 1, g);
    // magnitude of the numerator does not grow
    assert(iabs(q.0) == na as int / g);
    if na > 0 {
        lemma_divisor_le(na, gcd(na, d));
        lemma_div_is_ordered_by_denominator(na as int, 1, g);
    }
}

/// Reorderings of a product of four factors.
proof fn lemma_mul4(x: int, y: int, z: int, w: int)
    ensures
        (x * y) * (z * w) == (x * z) * (y * w),
        (x * y) * (z * w) == (x * w) * (y * z),
        (x * y) * (z * w) == (x * w) * (z * y),
{
    assert((x * y) * (z * w) == (x * z) * (y * w)) by (nonlinear_arith) {}
    assert((x * y) * (z * w) == (x * w) * (y * z)) by (nonlinear_arith) {}
    assert((x * w) * (y * z) == (x * w) * (z * y)) by (nonlinear_arith) {}
}

/// Cross-multiplication equality is transitive over positive denominators.
pub proof fn lemma_rat_eq_trans(a: (int, int), b: (int, int), c: (int, int))
    requires
        rat_wf(a),
        rat_wf(b),
        rat_wf(c),
        rat_eq(a, b),
        rat_eq(b, c),
    ensures
        rat_eq(a, c),
{
    assert(a.0 * c.1 == c.0 * a.1) by (nonlinear_arith)
        requires
            a.0 * b.1 == b.0 * a.1,
            b.0 * c.1 == c.0 * b.1,
            b.1 > 0,
    {}
}

/// Addition respects rational equality.
pub proof fn lemma_add_cong(a: (int, int), a2: (int, int), b: (int, int), b2: (int, int))
    requires
        rat_wf(a),
        rat_wf(a2),
        rat_wf(b),
        rat_wf(b2),
        rat_eq(a, a2),
        rat_eq(b, b2),
    ensures
        rat_eq(rat_add(a, b), rat_add(a2, b2)),
        rat_wf(rat_add(a, b)),
{
    lemma_mul_is_distributive_add_other_way(a2.1 * b2.1, a.0 * b.1, b.0 * a.1);
    lemma_mul4(a.0, b.1, a2.1, b2.1);
    assert((a.0 * a2.1) * (b.1 * b2.1) == (a2.0 * a.1) * (b.1 * b2.1));
    lemma_mul4(a2.0, a.1, b.1, b2.1);
    lemma_mul4(b.0, a.1, a2.1, b2.1);
    assert((b.0 * b2.1) * (a.1 * a2.1) == (b2.0 * b.1) * (a.1 * a2.1));
    lemma_mul4(b2.0, b.1, a.1, a2.1);
    lemma_mul_is_distributive_add_other_way(a.1 * b.1, a2.0 * b2.1, b2.0 * a2.1);
    assert(a.1 * b.1 > 0) by (nonlinear_arith)
        requires
            a.1 > 0,
            b.1 > 0,
    {}
}

/// Subtraction respects rational equality.
pub proof fn lemma_sub_cong(a: (int, int), a2: (int, int), b: (int, int), b2: (int, int))
    requires
        rat_wf(a),
        rat_wf(a2),
        rat_wf(b),
        rat_wf(b2),
        rat_eq(a, a2),
        rat_eq(b, b2),
    ensures
        rat_eq(rat_sub(a, b), rat_sub(a2, b2)),
        rat_wf(rat_sub(a, b)),
{
    lemma_mul_is_distributive_sub_other_way(a2.1 * b2.1, a.0 * b.1, b.0 * a.1);
    lemma_mul4(a.0, b.1, a2.1, b2.1);
    assert((a.0 * a2.1) * (b.1 * b2.1) == (a2.0 * a.1) * (b.1 * b2.1));
    lemma_mul4(a2.0, a.1, b.1, b2.1);
    lemma_mul4(b.0, a.1, a2.1, b2.1);
    assert((b.0 * b2.1) * (a.1 * a2.1) == (b2.0 * b.1) * (a.1 * a2.1));
    lemma_mul4(b2.0, b.1, a.1, a2.1);
    lemma_mul_is_distributive_sub_other_way(a.1 * b.1, a2.0 * b2.1, b2.0 * a2.1);
    assert(a.1 * b.1 > 0) by (nonlinear_arith)
        requires
            a.1 > 0,
            b.1 > 0,
    {}
}

/// Multiplication respects rational equality.
pub proof fn lemma_mul_cong(a: (int, int), a2: (int, int), b: (int, int), b2: (int, int))
    requires
        rat_wf(a),
        rat_wf(a2),
        rat_wf(b),
        rat_wf(b2),
        rat_eq(a, a2),
        rat_eq(b, b2),
    ensures
        rat_eq(rat_mul(a, b), rat_mul(a2, b2)),
        rat_wf(rat_mul(a, b)),
{
    assert((a.0 * b.0) * (a2.1 * b2.1) == (a2.0 * b2.0) * (a.1 * b.1) && a.1 * b.1 > 0)
        by (nonlinear_arith)
        requires
            a.0 * a2.1 == a2.0 * a.1,
            b.0 * b2.1 == b2.0 * b.1,
            a.1 > 0,
            a2.1 > 0,
            b.1 > 0,
            b2.1 > 0,
    {}
}

/// Division respects rational equality; equal rationals agree on being
/// zero, so the two sides take the same sign branch.
pub proof fn lemma_div_cong(a: (int, int), a2: (int, int), b: (int, int), b2: (int, int))
    requires
        rat_wf(a),
        rat_wf(a2),
        rat_wf(b),
        rat_wf(b2),
        rat_eq(a, a2),
        rat_eq(b, b2),
        b.0 != 0,
    ensures
        b2.0 != 0,
        rat_eq(rat_div(a, b), rat_div(a2, b2)),
        rat_wf(rat_div(a, b)),
{
    assert(b2.0 != 0 && (b.0 > 0 <==> b2.0 > 0)) by (nonlinear_arith)
        requires
            b.0 * b2.1 == b2.0 * b.1,
            b.1 > 0,
            b2.1 > 0,
            b.0 != 0,
    {}
    if b.0 > 0 {
        assert((a.0 * b.1) * (a2.1 * b2.0) == (a2.0 * b2.1) * (a.1 * b.0) && a.1 * b.0 > 0)
            by (nonlinear_arith)
            requires
                a.0 * a2.1 == a2.0 * a.1,
                b.0 * b2.1 == b2.0 * b.1,
                a.1 > 0,
                a2.1 > 0,
                b.1 > 0,
                b2.1 > 0,
                b.0 > 0,
                b2.0 > 0,
        {}
    } else {
        assert((-(a.0 * b.1)) * (a2.1 * -b2.0) == (-(a2.0 * b2.1)) * (a.1 * -b.0) && a.1 * -b.0
            > 0) by (nonlinear_arith)
            requires
                a.0 * a2.1 == a2.0 * a.1,
                b.0 * b2.1 == b2.0 * b.1,
                a.1 > 0,
                a2.1 > 0,
                b.1 > 0,
                b2.1 > 0,
                b.0 < 0,
                b2.0 < 0,
        {}
    }
}

/// Order respects rational equality.
pub proof fn lemma_le_cong(a: (int, int), a2: (int, int), b: (int, int), b2: (int, int))
    requires
        rat_wf(a),
        rat_wf(a2),
        rat_wf(b),
        rat_wf(b2),
        rat_eq(a, a2),
        rat_eq(b, b2),
    ensures
        rat_le(a, b) == rat_le(a2, b2),
        rat_lt(a, b) == rat_lt(a2, b2),
{
    assert((a.0 * b.1 <= b.0 * a.1 <==> a2.0 * b2.1 <= b2.0 * a2.1) && (a.0 * b.1 < b.0 * a.1
        <==> a2.0 * b2.1 < b2.0 * a2.1)) by (nonlinear_arith)
        requires
            a.0 * a2.1 == a2.0 * a.1,
            b.0 * b2.1 == b2.0 * b.1,
            a.1 > 0,
            a2.1 > 0,
            b.1 > 0,
            b2.1 > 0,
    {}
}

/// The exact operations keep denominators positive.
pub proof fn lemma_op_wf(a: (int, int), b: (int, int))
    requires
        rat_wf(a),
        rat_wf(b),
    ensures
        rat_wf(rat_add(a, b)),
        rat_wf(rat_sub(a, b)),
        rat_wf(rat_mul(a, b)),
        b.0 != 0 ==> rat_wf(rat_div(a, b)),
{
    assert(a.1 * b.1 > 0 && (b.0 > 0 ==> a.1 * b.0 > 0) && (b.0 < 0 ==> a.1 * -b.0 > 0))
        by (nonlinear_arith)
        requires
            a.1 > 0,
            b.1 > 0,
    {}
}

/// Addition of rationals is commutative.
pub proof fn lemma_rat_add_comm(a: (int, int), b: (int, int))
    requires
        rat_wf(a),
        rat_wf(b),
    ensures
        rat_eq(rat_add(a, b), rat_add(b, a)),
{
    assert((a.0 * b.1 + b.0 * a.1) * (b.1 * a.1) == (b.0 * a.1 + a.0 * b.1) * (a.1 * b.1))
        by (nonlinear_arith) {}
}

/// Adding and then subtracting the same rational gives back the first
/// operand.
pub proof fn lemma_rat_add_then_sub(a: (int, int), b: (int, int))
    requires
        rat_wf(a),
        rat_wf(b),
    ensures
        rat_eq(rat_sub(rat_add(a, b), b), a),
{
    assert(((a.0 * b.1 + b.0 * a.1) * b.1 - b.0 * (a.1 * b.1)) * a.1 == a.0 * ((a.1 * b.1)
        * b.1)) by (nonlinear_arith) {}
}

/// A pair whose raw components are already in range fits: reduction never
/// grows a representation.
pub proof fn lemma_fits_small(p: (int, int))
    requires
        p.1 >= 1,
        iabs(p.0) <= i64::MAX as int,
        p.1 <= i64::MAX as int,
    ensures
        rat_fits(p),
{
    lemma_norm(p);
}

/// Adding and then subtracting the same first operand leaves the second:
/// `(a + c) - a` denotes `c`.
pub proof fn lemma_rat_sub_of_add(a: (int, int), c: (int, int))
    requires
        rat_wf(a),
        rat_wf(c),
    ensures
        rat_eq(rat_sub(rat_add(a, c), a), c),
{
    assert(((a.0 * c.1 + c.0 * a.1) * a.1 - a.0 * (a.1 * c.1)) * c.1 == c.0 * ((a.1 * c.1)
        * a.1)) by (nonlinear_arith) {}
}

/// Multiplication of rationals is commutative.
pub proof fn lemma_rat_mul_comm(a: (int, int), b: (int, int))
    ensures
        rat_eq(rat_mul(a, b), rat_mul(b, a)),
{
    assert((a.0 * b.0) * (b.1 * a.1) == (b.0 * a.0) * (a.1 * b.1)) by (nonlinear_arith) {}
}

/// Multiplication of rationals is associative.
pub proof fn lemma_rat_mul_assoc(a: (int, int), b: (int, int), c: (int, int))
    ensures
        rat_eq(rat_mul(rat_mul(a, b), c), rat_mul(a, rat_mul(b, c))),
{
    assert(((a.0 * b.0) * c.0) * (a.1 * (b.1 * c.1)) == (a.0 * (b.0 * c.0)) * ((a.1 * b.1)
        * c.1)) by (nonlinear_arith) {}
}

/// Dividing and then multiplying by the same nonzero rational gives back
/// the dividend.
pub proof fn lemma_rat_div_cancel(x: (int, int), y: (int, int))
    requires
        rat_wf(x),
        rat_wf(y),
        y.0 != 0,
    ensures
        rat_eq(rat_mul(rat_div(x, y), y), x),
{
    if y.0 > 0 {
        assert(((x.0 * y.1) * y.0) * x.1 == x.0 * ((x.1 * y.0) * y.1)) by (nonlinear_arith) {}
    } else {
        assert(((-(x.0 * y.1)) * y.0) * x.1 == x.0 * ((x.1 * -y.0) * y.1)) by (nonlinear_arith)
        {}
    }
}

/// Multiplication distributes over addition of rationals.
#[verifier::rlimit(60)]
#[verifier::spinoff_prover]
pub proof fn lemma_rat_mul_distrib(a: (int, int), b: (int, int), c: (int, int))
    requires
        rat_wf(a),
        rat_wf(b),
        rat_wf(c),
    ensures
        rat_eq(rat_mul(rat_add(a, b), c), rat_add(rat_mul(a, c), rat_mul(b, c))),
{
    let l = rat_mul(rat_add(a, b), c);
    let r = rat_add(rat_mul(a, c), rat_mul(b, c));
    lemma_mul_is_distributive_add_other_way(c.0, a.0 * b.1, b.0 * a.1);
    lemma_mul_is_distributive_add_other_way(r.1, (a.0 * b.1) * c.0, (b.0 * a.1) * c.0);
    assert(((a.0 * b.1) * c.0) * ((a.1 * c.1) * (b.1 * c.1)) == ((a.0 * c.0) * (b.1 * c.1)) * ((
    a.1 * b.1) * c.1)) by (nonlinear_arith) {}
    assert(((b.0 * a.1) * c.0) * ((a.1 * c.1) * (b.1 * c.1)) == ((b.0 * c.0) * (a.1 * c.1)) * ((
    a.1 * b.1) * c.1)) by (nonlinear_arith) {}
    lemma_mul_is_distributive_add_other_way(l.1, (a.0 * c.0) * (b.1 * c.1), (b.0 * c.0) * (a.1
        * c.1));
}

/// Multiplication distributes over subtraction of rationals.
#[verifier::rlimit(60)]
#[verifier::spinoff_prover]
pub proof fn lemma_rat_sub_distrib(a: (int, int), b: (int, int), c: (int, int))
    requires
        rat_wf(a),
        rat_wf(b),
        rat_wf(c),
    ensures
        rat_eq(rat_mul(rat_sub(a, b), c), rat_sub(rat_mul(a, c), rat_mul(b, c))),
{
    let l = rat_mul(rat_sub(a, b), c);
    let r = rat_sub(rat_mul(a, c), rat_mul(b, c));
    lemma_mul_is_distributive_sub_other_way(c.0, a.0 * b.1, b.0 * a.1);
    lemma_mul_is_distributive_sub_other_way(r.1, (a.0 * b.1) * c.0, (b.0 * a.1) * c.0);
    assert(((a.0 * b.1) * c.0) * ((a.1 * c.1) * (b.1 * c.1)) == ((a.0 * c.0) * (b.1 * c.1)) * ((
    a.1 * b.1) * c.1)) by (nonlinear_arith) {}
    assert(((b.0 * a.1) * c.0) * ((a.1 * c.1) * (b.1 * c.1)) == ((b.0 * c.0) * (a.1 * c.1)) * ((
    a.1 * b.1) * c.1)) by (nonlinear_arith) {}
    lemma_mul_is_distributive_sub_other_way(l.1, (a.0 * c.0) * (b.1 * c.1), (b.0 * c.0) * (a.1
        * c.1));
}

/// Regrouping a sum and a difference: `(x + y) - z` denotes the same
/// rational as `(x - z) + y`.
pub proof fn lemma_rat_shuffle(x: (int, int), y: (int, int), z: (int, int))
    requires
        rat_wf(x),
        rat_wf(y),
        rat_wf(z),
    ensures
        rat_eq(rat_sub(rat_add(x, y), z), rat_add(rat_sub(x, z), y)),
{
    let l = rat_sub(rat_add(x, y), z);
    let r = rat_add(rat_sub(x, z), y);
    lemma_mul_is_distributive_add_other_way(z.1, x.0 * y.1, y.0 * x.1);
    lemma_mul_is_distributive_sub_other_way(y.1, x.0 * z.1, z.0 * x.1);
    assert((x.0 * y.1) * z.1 == (x.0 * z.1) * y.1) by (nonlinear_arith) {}
    assert((y.0 * x.1) * z.1 == y.0 * (x.1 * z.1)) by (nonlinear_arith) {}
    assert(z.0 * (x.1 * y.1) == (z.0 * x.1) * y.1) by (nonlinear_arith) {}
    assert((x.1 * y.1) * z.1 == (x.1 * z.1) * y.1) by (nonlinear_arith) {}
}

/// Rotating the last two factors of a triple product keeps the value.
pub proof fn lemma_rat_mul_rotate(x: (int, int), y: (int, int), z: (int, int))
    ensures
        rat_eq(rat_mul(rat_mul(x, y), z), rat_mul(rat_mul(x, z), y)),
{
    assert((x.0 * y.0) * z.0 == (x.0 * z.0) * y.0) by (nonlinear_arith) {}
    assert((x.1 * y.1) * z.1 == (x.1 * z.1) * y.1) by (nonlinear_arith) {}
}

/// Swapping the operands of a difference negates it.
pub proof fn lemma_rat_sub_antisym(u: (int, int), v: (int, int))
    requires
        rat_wf(u),
        rat_wf(v),
    ensures
        rat_eq(rat_sub(v, u), rat_neg(rat_sub(u, v))),
{
    let l = rat_sub(v, u);
    let r = rat_neg(rat_sub(u, v));
    assert(l.0 * r.1 == r.0 * l.1) by (nonlinear_arith)
        requires
            l.0 == v.0 * u.1 - u.0 * v.1,
            l.1 == v.1 * u.1,
            r.0 == -(u.0 * v.1 - v.0 * u.1),
            r.1 == u.1 * v.1,
    {}
}

/// Regrouping a difference of sums into a sum of differences:
/// `(a1 + a2) - (b1 + b2)` denotes the same rational as
/// `(a1 - b1) + (a2 - b2)`.
pub proof fn lemma_rat_regroup(a1: (int, int), a2: (int, int), b1: (int, int), b2: (int, int))
    requires
        rat_wf(a1),
        rat_wf(a2),
        rat_wf(b1),
        rat_wf(b2),
    ensures
        rat_eq(
            rat_sub(rat_add(a1, a2), rat_add(b1, b2)),
            rat_add(rat_sub(a1, b1), rat_sub(a2, b2)),
        ),
{
    let l = rat_sub(rat_add(a1, a2), rat_add(b1, b2));
    let r = rat_add(rat_sub(a1, b1), rat_sub(a2, b2));
    lemma_mul_is_distributive_add_other_way(b1.1 * b2.1, a1.0 * a2.1, a2.0 * a1.1);
    lemma_mul_is_distributive_add_other_way(a1.1 * a2.1, b1.0 * b2.1, b2.0 * b1.1);
    lemma_mul_is_distributive_sub_other_way(a2.1 * b2.1, a1.0 * b1.1, b1.0 * a1.1);
    lemma_mul_is_distributive_sub_other_way(a1.1 * b1.1, a2.0 * b2.1, b2.0 * a2.1);
    lemma_mul4(a1.0, a2.1, b1.1, b2.1);
    lemma_mul4(a2.0, a1.1, b1.1, b2.1);
    lemma_mul4(b1.0, b2.1, a1.1, a2.1);
    lemma_mul4(b2.0, b1.1, a1.1, a2.1);
    lemma_mul4(a1.0, b1.1, a2.1, b2.1);
    lemma_mul4(b1.0, a1.1, a2.1, b2.1);
    lemma_mul4(a2.0, b2.1, a1.1, b1.1);
    lemma_mul4(b2.0, a2.1, a1.1, b1.1);
    assert(l.0 == (a1.0 * a2.1) * (b1.1 * b2.1) + (a2.0 * a1.1) * (b1.1 * b2.1) - ((b1.0 * b2.1)
        * (a1.1 * a2.1) + (b2.0 * b1.1) * (a1.1 * a2.1)));
    assert(r.0 == (a1.0 * b1.1) * (a2.1 * b2.1) - (b1.0 * a1.1) * (a2.1 * b2.1) + ((a2.0 * b2.1)
        * (a1.1 * b1.1) - (b2.0 * a2.1) * (a1.1 * b1.1)));
    assert(l.0 == r.0);
    lemma_mul4(a1.1, a2.1, b1.1, b2.1);
    assert(l.1 == r.1);
}

/// A rational plus its negation denotes zero.
pub proof fn lemma_rat_add_neg(x: (int, int))
    requires
        rat_wf(x),
    ensures
        rat_eq(rat_add(x, rat_neg(x)), rat_int(0)),
{
    let p = rat_add(x, rat_neg(x));
    assert(p.0 == 0) by (nonlinear_arith)
        requires
            p.0 == x.0 * x.1 + (-x.0) * x.1,
    {}
    assert(p.0 * 1 == 0 * p.1) by (nonlinear_arith)
        requires
            p.0 == 0,
    {}
}

/// Equal rationals agree on being zero.
pub proof fn lemma_zero_cong(a: (int, int), b: (int, int))
    requires
        rat_wf(a),
        rat_wf(b),
        rat_eq(a, b),
    ensures
        (a.0 == 0) == (b.0 == 0),
{
    assert((a.0 == 0) == (b.0 == 0)) by (nonlinear_arith)
        requires
            a.0 * b.1 == b.0 * a.1,
            a.1 > 0,
            b.1 > 0,
    {}
}

/// One reduced addition step tracks the exact value.
pub proof fn lemma_step_add(u: (int, int), uu: (int, int), v: (int, int), vv: (int, int), w: (int, int))
    requires
        rat_wf(u),
        rat_wf(uu),
        rat_wf(v),
        rat_wf(vv),
        rat_eq(u, uu),
        rat_eq(v, vv),
        w == rat_norm(rat_add(u, v)),
    ensures
        rat_wf(w),
        rat_wf(rat_add(uu, vv)),
        rat_eq(w, rat_add(uu, vv)),
{
    lemma_op_wf(u, v);
    lemma_norm(rat_add(u, v));
    lemma_add_cong(u, uu, v, vv);
    lemma_op_wf(uu, vv);
    lemma_rat_eq_trans(w, rat_add(u, v), rat_add(uu, vv));
}

/// One reduced subtraction step tracks the exact value.
pub proof fn lemma_step_sub(u: (int, int), uu: (int, int), v: (int, int), vv: (int, int), w: (int, int))
    requires
        rat_wf(u),
        rat_wf(uu),
        rat_wf(v),
        rat_wf(vv),
        rat_eq(u, uu),
        rat_eq(v, vv),
        w == rat_norm(rat_sub(u, v)),
    ensures
        rat_wf(w),
        rat_wf(rat_sub(uu, vv)),
        rat_eq(w, rat_sub(uu, vv)),
{
    lemma_op_wf(u, v);
    lemma_norm(rat_sub(u, v));
    lemma_sub_cong(u, uu, v, vv);
    lemma_op_wf(uu, vv);
    lemma_rat_eq_trans(w, rat_sub(u, v), rat_sub(uu, vv));
}

/// One reduced multiplication step tracks the exact value.
pub proof fn lemma_step_mul(u: (int, int), uu: (int, int), v: (int, int), vv: (int, int), w: (int, int))
    requires
        rat_wf(u),
        rat_wf(uu),
        rat_wf(v),
        rat_wf(vv),
        rat_eq(u, uu),
        rat_eq(v, vv),
        w == rat_norm(rat_mul(u, v)),
    ensures
        rat_wf(w),
        rat_wf(rat_mul(uu, vv)),
        rat_eq(w, rat_mul(uu, vv)),
{
    lemma_op_wf(u, v);
    lemma_norm(rat_mul(u, v));
    lemma_mul_cong(u, uu, v, vv);
    lemma_op_wf(uu, vv);
    lemma_rat_eq_trans(w, rat_mul(u, v), rat_mul(uu, vv));
}

/// One reduced division step tracks the exact value.
pub proof fn lemma_step_div(u: (int, int), uu: (int, int), v: (int, int), vv: (int, int), w: (int, int))
    requires
        rat_wf(u),
        rat_wf(uu),
        rat_wf(v),
        rat_wf(vv),
        rat_eq(u, uu),
        rat_eq(v, vv),
        v.0 != 0,
        w == rat_norm(rat_div(u, v)),
    ensures
        rat_wf(w),
        vv.0 != 0,
        rat_wf(rat_div(uu, vv)),
        rat_eq(w, rat_div(uu, vv)),
{
    lemma_div_cong(u, uu, v, vv);
    lemma_op_wf(u, v);
    lemma_op_wf(uu, vv);
    lemma_norm(rat_div(u, v));
    lemma_rat_eq_trans(w, rat_div(u, v), rat_div(uu, vv));
}

/// Reduction keeps the sign of the numerator.
pub proof fn lemma_norm_nonneg(p: (int, int))
    requires
        p.1 >= 1,
        p.0 >= 0,
    ensures
        rat_norm(p).0 >= 0,
{
    let g = gcd(iabs(p.0) as nat, p.1 as nat) as int;
    lemma_gcd_divides(iabs(p.0) as nat, p.1 as nat);
    lemma_div_pos_is_pos(p.0, g);
}

/// The representation bounds of a specification-level rational that the
/// executable type can hold directly.
pub open spec fn rat_in_i64(p: (int, int)) -> bool {
    p.1 >= 1 && p.0 > i64::MIN as int
}

/// An exact rational scalar: `num / den` with `den >= 1`, stored reduced.
///
/// The magnitude bound `num > i64::MIN` keeps negation total.
#[derive(Clone, Copy, Debug)]
pub struct Rat {
    num: i64,
    den: i64,
}

impl View for Rat {
    type V = (int, int);

    closed spec fn view(&self) -> (int, int) {
        (self.num as int, self.den as int)
    }
}

impl Rat {
    /// The representation invariant every `Rat` satisfies: a positive
    /// denominator, and a numerator whose negation stays in `i64`.
    #[verifier::type_invariant]
    pub open spec fn wf(self) -> bool {
        rat_in_i64(self@)
    }
}

/// The product of any two `i64` values fits strictly inside `i128`.
proof fn lemma_i64_prod_fits(a: int, b: int)
    requires
        i64::MIN as int <= a <= i64::MAX as int,
        i64::MIN as int <= b <= i64::MAX as int,
    ensures
        i128::MIN < a * b < i128::MAX,
{
    assert(i128::MIN < a * b < i128::MAX) by (nonlinear_arith)
        requires
            -0x8000_0000_0000_0000 <= a <= 0x7fff_ffff_ffff_ffff,
            -0x8000_0000_0000_0000 <= b <= 0x7fff_ffff_ffff_ffff,
    {}
}

impl PartialEq for Rat {
    /// Value equality: exact comparison of the rationals the two sides
    /// denote, by cross multiplication.
    fn eq(&self, other: &Rat) -> (r: bool) {
        proof {
            lemma_i64_prod_fits(self.num as int, other.den as int);
            lemma_i64_prod_fits(other.num as int, self.den as int);
        }
        (self.num as i128) * (other.den as i128) == (other.num as i128) * (self.den as i128)
    }
}

impl vstd::std_specs::cmp::PartialEqSpecImpl for Rat {
    open spec fn obeys_eq_spec() -> bool {
        true
    }

    open spec fn eq_spec(&self, other: &Rat) -> bool {
        rat_eq(self@, other@)
    }
}

/// Euclid's algorithm on machine integers.
fn gcd_exec(a0: u128, b0: u128) -> (g: u128)
    ensures
        g as nat == gcd(a0 as nat, b0 as nat),
{
    let mut a = a0;
    let mut b = b0;
    while b != 0
        invariant
            gcd(a as nat, b as nat) == gcd(a0 as nat, b0 as nat),
        decreases b,
    {
        let r = a % b;
        a = b;
        b = r;
    }
    a
}

/// Reduce the exact pair `(n, d)` and pack it into a `Rat` if the reduced
/// form fits; `None` exactly when it does not.
fn rat_make(n: i128, d: i128) -> (r: Option<Rat>)
    requires
        d >= 1,
        n > i128::MIN,
    ensures
        rat_fits((n as int, d as int)) ==> (match r {
            Some(x) => x.wf() && x@ == rat_norm((n as int, d as int)),
            None => false,
        }),
        !rat_fits((n as int, d as int)) ==> r is None,
{
    let neg = n < 0;
    let na: u128 = if neg {
        (-n) as u128
    } else {
        n as u128
    };
    let da: u128 = d as u128;
    assert(na as int == iabs(n as int) && da as int == d as int);
    let g = gcd_exec(na, da);
    proof {
        lemma_gcd_divides(na as nat, da as nat);
        lemma_divisor_le(da as nat, g as nat);
        lemma_exact_div(n as int, g as int);
        lemma_exact_div(d as int, g as int);
    }
    let qn = na / g;
    let qd = da / g;
    assert(qn as int == iabs(n as int) / g as int && qd as int == d as int / g as int);
    assert(qd >= 1);
    if qn <= (i64::MAX as u128) && qd <= (i64::MAX as u128) {
        let m: i64 = qn as i64;
        let num: i64 = if neg {
            -m
        } else {
            m
        };
        assert(num as int == (n as int) / (g as int));
        Some(Rat { num, den: qd as i64 })
    } else {
        None
    }
}

impl Rat {
    /// The rational denoting the integer `n`.
    pub fn from_int(n: i64) -> (r: Rat)
        requires
            n > i64::MIN,
        ensures
            r@ == rat_int(n as int),
    {
        Rat { num: n, den: 1 }
    }

    /// The rational `num / den`. Always representable, because reduction
    /// never grows the components.
    pub fn frac(num: i64, den: i64) -> (r: Rat)
        requires
            den >= 1,
            num > i64::MIN,
        ensures
            r@ == rat_norm((num as int, den as int)),
            rat_eq(r@, (num as int, den as int)),
    {
        proof {
            lemma_fits_small((num as int, den as int));
            lemma_norm((num as int, den as int));
        }
        let o = rat_make(num as i128, den as i128);
        match o {
            Some(x) => x,
            None => Rat { num: 0, den: 1 },
        }
    }

    /// The numerator of the reduced representation.
    pub fn numerator(&self) -> (n: i64)
        ensures
            n as int == self@.0,
    {
        self.num
    }

    /// The (positive) denominator of the reduced representation.
    pub fn denominator(&self) -> (d: i64)
        ensures
            d as int == self@.1,
            d >= 1,
    {
        proof {
            use_type_invariant(*self);
        }
        self.den
    }

    /// Exact negation; total because of the magnitude invariant.
    pub fn neg(&self) -> (r: Rat)
        ensures
            r@ == rat_neg(self@),
    {
        proof {
            use_type_invariant(*self);
        }
        Rat { num: -self.num, den: self.den }
    }

    /// Whether this rational is zero.
    pub fn is_zero(&self) -> (r: bool)
        ensures
            r == (self@.0 == 0),
    {
        self.num == 0
    }

    /// Exact `<=` on the denoted rationals.
    pub fn le(&self, rhs: &Rat) -> (r: bool)
        ensures
            r == rat_le(self@, rhs@),
    {
        proof {
            use_type_invariant(*self);
            use_type_invariant(*rhs);
            lemma_i64_prod_fits(self.num as int, rhs.den as int);
            lemma_i64_prod_fits(rhs.num as int, self.den as int);
        }
        (self.num as i128) * (rhs.den as i128) <= (rhs.num as i128) * (self.den as i128)
    }

    /// Exact `<` on the denoted rationals.
    pub fn lt(&self, rhs: &Rat) -> (r: bool)
        ensures
            r == rat_lt(self@, rhs@),
    {
        proof {
            use_type_invariant(*self);
            use_type_invariant(*rhs);
            lemma_i64_prod_fits(self.num as int, rhs.den as int);
            lemma_i64_prod_fits(rhs.num as int, self.den as int);
        }
        (self.num as i128) * (rhs.den as i128) < (rhs.num as i128) * (self.den as i128)
    }

    /// Exact sum; `None` exactly when the reduced result leaves `i64`.
    pub fn checked_add(&self, rhs: &Rat) -> (r: Option<Rat>)
        ensures
            rat_fits(rat_add(self@, rhs@)) ==> (match r {
                Some(x) => x.wf() && x@ == rat_norm(rat_add(self@, rhs@)),
                None => false,
            }),
            !rat_fits(rat_add(self@, rhs@)) ==> r is None,
    {
        proof {
            use_type_invariant(*self);
            use_type_invariant(*rhs);
            lemma_raw_in_range(self@, rhs@);
        }
        let n = (self.num as i128) * (rhs.den as i128) + (rhs.num as i128) * (self.den as i128);
        let d = (self.den as i128) * (rhs.den as i128);
        rat_make(n, d)
    }

    /// Exact difference; `None` exactly when the reduced result leaves
    /// `i64`.
    pub fn checked_sub(&self, rhs: &Rat) -> (r: Option<Rat>)
        ensures
            rat_fits(rat_sub(self@, rhs@)) ==> (match r {
                Some(x) => x.wf() && x@ == rat_norm(rat_sub(self@, rhs@)),
                None => false,
            }),
            !rat_fits(rat_sub(self@, rhs@)) ==> r is None,
    {
        proof {
            use_type_invariant(*self);
            use_type_invariant(*rhs);
            lemma_raw_in_range(self@, rhs@);
        }
        let n = (self.num as i128) * (rhs.den as i128) - (rhs.num as i128) * (self.den as i128);
        let d = (self.den as i128) * (rhs.den as i128);
        rat_make(n, d)
    }

    /// Exact product; `None` exactly when the reduced result leaves `i64`.
    pub fn checked_mul(&self, rhs: &Rat) -> (r: Option<Rat>)
        ensures
            rat_fits(rat_mul(self@, rhs@)) ==> (match r {
                Some(x) => x.wf() && x@ == rat_norm(rat_mul(self@, rhs@)),
                None => false,
            }),
            !rat_fits(rat_mul(self@, rhs@)) ==> r is None,
    {
        proof {
            use_type_invariant(*self);
            use_type_invariant(*rhs);
            lemma_raw_in_range(self@, rhs@);
        }
        let n = (self.num as i128) * (rhs.num as i128);
        let d = (self.den as i128) * (rhs.den as i128);
        rat_make(n, d)
    }

    /// Exact quotient by a nonzero rational; `None` exactly when the
    /// reduced result leaves `i64`.
    pub fn checked_div(&self, rhs: &Rat) -> (r: Option<Rat>)
        requires
            rhs@.0 != 0,
        ensures
            rat_fits(rat_div(self@, rhs@)) ==> (match r {
                Some(x) => x.wf() && x@ == rat_norm(rat_div(self@, rhs@)),
                None => false,
            }),
            !rat_fits(rat_div(self@, rhs@)) ==> r is None,
    {
        proof {
            use_type_invariant(*self);
            use_type_invariant(*rhs);
            lemma_raw_in_range(self@, rhs@);
        }
        if rhs.num >= 0 {
            let n = (self.num as i128) * (rhs.den as i128);
            let d = (self.den as i128) * (rhs.num as i128);
            proof {
                assert(d >= 1) by (nonlinear_arith)
                    requires
                        self.den as int >= 1,
                        rhs.num as int >= 1,
                        d == (self.den as int) * (rhs.num as int),
                {}
            }
            rat_make(n, d)
        } else {
            proof {
                lemma_i64_prod_fits(self.den as int, -(rhs.num as int));
            }
            let n = -((self.num as i128) * (rhs.den as i128));
            let d = (self.den as i128) * (-(rhs.num as i128));
            proof {
                assert(d >= 1) by (nonlinear_arith)
                    requires
                        self.den as int >= 1,
                        -(rhs.num as int) >= 1,
                        d == (self.den as int) * (-(rhs.num as int)),
                {}
            }
            rat_make(n, d)
        }
    }
}

/// The raw components every binary operation on well formed `Rat`s
/// produces stay strictly inside `i128`.
proof fn lemma_raw_in_range(a: (int, int), b: (int, int))
    requires
        rat_wf(a),
        rat_wf(b),
        iabs(a.0) <= i64::MAX as int,
        a.1 <= i64::MAX as int,
        iabs(b.0) <= i64::MAX as int,
        b.1 <= i64::MAX as int,
    ensures
        iabs(a.0 * b.1) <= i64::MAX as int * i64::MAX as int,
        iabs(b.0 * a.1) <= i64::MAX as int * i64::MAX as int,
        iabs(a.0 * b.0) <= i64::MAX as int * i64::MAX as int,
        1 <= a.1 * b.1 <= i64::MAX as int * i64::MAX as int,
        iabs(a.1 * b.0) <= i64::MAX as int * i64::MAX as int,
{
    let m = i64::MAX as int;
    assert(iabs(a.0 * b.1) <= m * m && iabs(b.0 * a.1) <= m * m && iabs(a.0 * b.0) <= m * m
        && 1 <= a.1 * b.1 <= m * m && iabs(a.1 * b.0) <= m * m) by (nonlinear_arith)
        requires
            a.1 >= 1,
            b.1 >= 1,
            iabs(a.0) <= m,
            a.1 <= m,
            iabs(b.0) <= m,
            b.1 <= m,
            m >= 1,
    {}
}

} // verus!
