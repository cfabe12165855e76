//! Why interpolation at zero recovers the constant term: congruences modulo
//! the group order, sums weighted by interpolating values, and the laws of
//! Lagrange interpolation that the secret sharing rests on.

use crate::helper::{basis_factor, interpolating_value};
use crate::scalar::{add_mod, inverse_of, is_unit, mul_mod, order, pow_mod, sub_mod, sum_mod};
use crate::shamir::poly_eval;
use vstd::arithmetic::div_mod::{
    lemma_add_mod_noop, lemma_mod_twice, lemma_mul_mod_noop_general, lemma_small_mod,
    lemma_sub_mod_noop,
};
use vstd::prelude::*;

verus! {

/// Whether two integers leave the same remainder modulo the group order.
pub open spec fn cong(x: int, y: int) -> bool {
    x % (order() as int) == y % (order() as int)
}

/// A remainder modulo the group order is congruent to what it is the remainder of.
pub proof fn lemma_cong_mod(x: int)
    ensures
        cong(x % (order() as int), x),
{
    lemma_mod_twice(x, order() as int);
}

/// Congruent summands have congruent sums.
pub proof fn lemma_cong_add(x: int, x2: int, y: int, y2: int)
    requires
        cong(x, x2),
        cong(y, y2),
    ensures
        cong(x + y, x2 + y2),
{
    lemma_add_mod_noop(x, y, order() as int);
    lemma_add_mod_noop(x2, y2, order() as int);
}

/// Congruent terms have congruent differences.
pub proof fn lemma_cong_sub(x: int, x2: int, y: int, y2: int)
    requires
        cong(x, x2),
        cong(y, y2),
    ensures
        cong(x - y, x2 - y2),
{
    lemma_sub_mod_noop(x, y, order() as int);
    lemma_sub_mod_noop(x2, y2, order() as int);
}

/// Congruent factors have congruent products.
pub proof fn lemma_cong_mul(x: int, x2: int, y: int, y2: int)
    requires
        cong(x, x2),
        cong(y, y2),
    ensures
        cong(x * y, x2 * y2),
{
    lemma_mul_mod_noop_general(x, y, order() as int);
    lemma_mul_mod_noop_general(x2, y2, order() as int);
}

/// Two congruent numbers below the group order are equal.
pub proof fn lemma_cong_reduced(x: nat, y: nat)
    requires
        x < order(),
        y < order(),
        cong(x as int, y as int),
    ensures
        x == y,
{
    lemma_small_mod(x, order());
    lemma_small_mod(y, order());
}

/// A sum in the field is congruent to the sum of what its summands are congruent to.
pub proof fn lemma_add_mod_cong(a: nat, b: nat, x: int, y: int)
    requires
        cong(a as int, x),
        cong(b as int, y),
    ensures
        cong(add_mod(a, b) as int, x + y),
        add_mod(a, b) < order(),
{
    lemma_cong_add(a as int, x, b as int, y);
    lemma_cong_mod((a + b) as int);
}

/// A difference in the field is congruent to the difference of what its terms are congruent to.
pub proof fn lemma_sub_mod_cong(a: nat, b: nat, x: int, y: int)
    requires
        cong(a as int, x),
        cong(b as int, y),
    ensures
        cong(sub_mod(a, b) as int, x - y),
        sub_mod(a, b) < order(),
{
    lemma_cong_sub(a as int, x, b as int, y);
    lemma_cong_mod(a - b);
}

/// A product in the field is congruent to the product of what its factors are congruent to.
pub proof fn lemma_mul_mod_cong(a: nat, b: nat, x: int, y: int)
    requires
        cong(a as int, x),
        cong(b as int, y),
    ensures
        cong(mul_mod(a, b) as int, x * y),
        mul_mod(a, b) < order(),
{
    lemma_cong_mul(a as int, x, b as int, y);
    lemma_cong_mod((a * b) as int);
}

/// A point `p` other than `a` has a factor for `a` whose product with `p - a` is `-a`.
pub proof fn lemma_factor_times_difference(p: nat, a: nat)
    requires
        is_unit(sub_mod(a, p)),
    ensures
        mul_mod(sub_mod(p, a), basis_factor(a, p)) == sub_mod(0, a),
{
    let u = inverse_of(sub_mod(a, p));
    let (pi, ai, ui) = (p as int, a as int, u as int);
    // (a - p) * u is congruent to one
    lemma_sub_mod_cong(a, p, ai, pi);
    lemma_mul_mod_cong(sub_mod(a, p), u, ai - pi, ui);
    assert(cong(1, (ai - pi) * ui));
    // the left side is congruent to (p - a) * (a * u) = -a * ((a - p) * u)
    lemma_sub_mod_cong(p, a, pi, ai);
    lemma_mul_mod_cong(a, u, ai, ui);
    lemma_mul_mod_cong(sub_mod(p, a), mul_mod(a, u), pi - ai, ai * ui);
    assert((pi - ai) * (ai * ui) == (-ai) * ((ai - pi) * ui)) by (nonlinear_arith);
    lemma_cong_mul(-ai, -ai, (ai - pi) * ui, 1);
    assert((-ai) * 1 == 0 - ai);
    // the right side is congruent to 0 - a
    lemma_sub_mod_cong(0, a, 0, ai);
    lemma_cong_reduced(mul_mod(sub_mod(p, a), basis_factor(a, p)), sub_mod(0, a));
}

/// The sum, over the points `pts`, of the weight of a point multiplied by its
/// interpolating value among the points `xs`.
pub open spec fn weighted_sum(xs: Seq<nat>, pts: Seq<nat>, w: spec_fn(nat) -> nat) -> nat
    decreases pts.len(),
{
    if pts.len() == 0 {
        0
    } else {
        add_mod(
            weighted_sum(xs, pts.drop_last(), w),
            mul_mod(w(pts.last()), interpolating_value(xs, pts.last())),
        )
    }
}

/// A weighted sum is below the group order.
pub proof fn lemma_weighted_sum_reduced(xs: Seq<nat>, pts: Seq<nat>, w: spec_fn(nat) -> nat)
    ensures
        weighted_sum(xs, pts, w) < order(),
{
    if pts.len() > 0 {
        lemma_cong_mod(
            (weighted_sum(xs, pts.drop_last(), w) + mul_mod(
                w(pts.last()),
                interpolating_value(xs, pts.last()),
            )) as int,
        );
    }
}

/// A weighted sum is linear in the weights: where each weight is congruent to
/// `c1 * u + c2 * v`, so is the sum.
pub proof fn lemma_weighted_sum_linear(
    xs: Seq<nat>,
    pts: Seq<nat>,
    w: spec_fn(nat) -> nat,
    u: spec_fn(nat) -> nat,
    v: spec_fn(nat) -> nat,
    c1: int,
    c2: int,
)
    requires
        forall|i: int|
            0 <= i < pts.len() ==> cong(
                w(#[trigger] pts[i]) as int,
                c1 * u(pts[i]) + c2 * v(pts[i]),
            ),
    ensures
        cong(
            weighted_sum(xs, pts, w) as int,
            c1 * weighted_sum(xs, pts, u) + c2 * weighted_sum(xs, pts, v),
        ),
    decreases pts.len(),
{
    if pts.len() == 0 {
        assert(c1 * 0 + c2 * 0 == 0) by (nonlinear_arith);
    } else {
        let rest = pts.drop_last();
        let p = pts.last();
        let l = interpolating_value(xs, p) as int;
        assert forall|i: int| 0 <= i < rest.len() implies cong(
            w(#[trigger] rest[i]) as int,
            c1 * u(rest[i]) + c2 * v(rest[i]),
        ) by {
            assert(rest[i] == pts[i]);
        }
        lemma_weighted_sum_linear(xs, rest, w, u, v, c1, c2);
        let (sw, su, sv) = (
            weighted_sum(xs, rest, w) as int,
            weighted_sum(xs, rest, u) as int,
            weighted_sum(xs, rest, v) as int,
        );
        let (wp, up, vp) = (w(p) as int, u(p) as int, v(p) as int);
        assert(cong(wp, c1 * up + c2 * vp)) by {
            assert(p == pts[pts.len() - 1]);
        }
        // the sum of the weights w
        lemma_mul_mod_cong(w(p), interpolating_value(xs, p), c1 * up + c2 * vp, l);
        lemma_add_mod_cong(
            weighted_sum(xs, rest, w),
            mul_mod(w(p), interpolating_value(xs, p)),
            c1 * su + c2 * sv,
            (c1 * up + c2 * vp) * l,
        );
        // the sums of the weights u and v
        lemma_mul_mod_cong(u(p), interpolating_value(xs, p), up, l);
        lemma_add_mod_cong(
            weighted_sum(xs, rest, u),
            mul_mod(u(p), interpolating_value(xs, p)),
            su,
            up * l,
        );
        lemma_mul_mod_cong(v(p), interpolating_value(xs, p), vp, l);
        lemma_add_mod_cong(
            weighted_sum(xs, rest, v),
            mul_mod(v(p), interpolating_value(xs, p)),
            sv,
            vp * l,
        );
        lemma_cong_mul(c1, c1, weighted_sum(xs, pts, u) as int, su + up * l);
        lemma_cong_mul(c2, c2, weighted_sum(xs, pts, v) as int, sv + vp * l);
        lemma_cong_add(
            c1 * weighted_sum(xs, pts, u),
            c1 * (su + up * l),
            c2 * weighted_sum(xs, pts, v),
            c2 * (sv + vp * l),
        );
        let (ul, vl) = (up * l, vp * l);
        assert((c1 * up + c2 * vp) * l == c1 * ul + c2 * vl) by (nonlinear_arith)
            requires
                ul == up * l,
                vl == vp * l,
        ;
        assert(c1 * (su + ul) == c1 * su + c1 * ul) by (nonlinear_arith);
        assert(c2 * (sv + vl) == c2 * sv + c2 * vl) by (nonlinear_arith);
    }
}

/// Taking the point `c` out of the points interpolated among: where each
/// weight is congruent to `(p - c) * u(p)`, and the interpolating value among
/// `xs` is that among `ys` multiplied by the factor for `c`, the sum among
/// `xs` is congruent to `-c` times the sum of the weights `u` among `ys`.
pub proof fn lemma_weighted_sum_shrink(
    xs: Seq<nat>,
    ys: Seq<nat>,
    pts: Seq<nat>,
    c: nat,
    w: spec_fn(nat) -> nat,
    u: spec_fn(nat) -> nat,
)
    requires
        forall|i: int|
            0 <= i < pts.len() ==> {
                &&& cong(w(#[trigger] pts[i]) as int, (pts[i] - c) * u(pts[i]))
                &&& interpolating_value(xs, pts[i]) == mul_mod(
                    interpolating_value(ys, pts[i]),
                    basis_factor(c, pts[i]),
                )
                &&& is_unit(sub_mod(c, pts[i]))
            },
    ensures
        cong(weighted_sum(xs, pts, w) as int, (0 - c) * weighted_sum(ys, pts, u)),
    decreases pts.len(),
{
    if pts.len() == 0 {
        assert((0 - c) * 0 == 0) by (nonlinear_arith);
    } else {
        let rest = pts.drop_last();
        let p = pts.last();
        assert(p == pts[pts.len() - 1]);
        assert forall|i: int| 0 <= i < rest.len() implies {
            &&& cong(w(#[trigger] rest[i]) as int, (rest[i] - c) * u(rest[i]))
            &&& interpolating_value(xs, rest[i]) == mul_mod(
                interpolating_value(ys, rest[i]),
                basis_factor(c, rest[i]),
            )
            &&& is_unit(sub_mod(c, rest[i]))
        } by {
            assert(rest[i] == pts[i]);
        }
        lemma_weighted_sum_shrink(xs, ys, rest, c, w, u);
        let ci = c as int;
        let (sw, su) = (weighted_sum(xs, rest, w) as int, weighted_sum(ys, rest, u) as int);
        let (wp, up, pi) = (w(p) as int, u(p) as int, p as int);
        let f = basis_factor(c, p);
        let ly = interpolating_value(ys, p);
        let (fi, li) = (f as int, ly as int);
        // (p - c) * f is congruent to -c
        lemma_factor_times_difference(p, c);
        lemma_sub_mod_cong(p, c, pi, ci);
        lemma_mul_mod_cong(sub_mod(p, c), f, pi - ci, fi);
        lemma_sub_mod_cong(0, c, 0, ci);
        assert(cong((pi - ci) * fi, 0 - ci));
        // the term among xs: w(p) * (ly * f), congruent to -c * (u(p) * ly)
        lemma_mul_mod_cong(ly, f, li, fi);
        lemma_mul_mod_cong(w(p), interpolating_value(xs, p), (pi - ci) * up, li * fi);
        assert(((pi - ci) * up) * (li * fi) == ((pi - ci) * fi) * (up * li)) by (nonlinear_arith);
        lemma_cong_mul((pi - ci) * fi, 0 - ci, up * li, up * li);
        lemma_add_mod_cong(
            weighted_sum(xs, rest, w),
            mul_mod(w(p), interpolating_value(xs, p)),
            (0 - ci) * su,
            (0 - ci) * (up * li),
        );
        // the sum among ys
        lemma_mul_mod_cong(u(p), ly, up, li);
        lemma_add_mod_cong(weighted_sum(ys, rest, u), mul_mod(u(p), ly), su, up * li);
        lemma_cong_mul(0 - ci, 0 - ci, weighted_sum(ys, pts, u) as int, su + up * li);
        assert((0 - ci) * su + (0 - ci) * (up * li) == (0 - ci) * (su + up * li))
            by (nonlinear_arith);
    }
}

/// A last point whose weight is congruent to zero adds nothing to a weighted sum.
pub proof fn lemma_weighted_sum_without_last(xs: Seq<nat>, pts: Seq<nat>, w: spec_fn(nat) -> nat)
    requires
        pts.len() > 0,
        cong(w(pts.last()) as int, 0),
    ensures
        weighted_sum(xs, pts, w) == weighted_sum(xs, pts.drop_last(), w),
{
    let rest = pts.drop_last();
    let p = pts.last();
    let l = interpolating_value(xs, p);
    lemma_weighted_sum_reduced(xs, rest, w);
    lemma_weighted_sum_reduced(xs, pts, w);
    lemma_mul_mod_cong(w(p), l, 0, l as int);
    assert(0 * (l as int) == 0) by (nonlinear_arith);
    lemma_add_mod_cong(weighted_sum(xs, rest, w), mul_mod(w(p), l), weighted_sum(xs, rest, w) as int, 0);
    lemma_cong_reduced(weighted_sum(xs, pts, w), weighted_sum(xs, rest, w));
}

/// Whether all the points are below the group order.
pub open spec fn reduced(xs: Seq<nat>) -> bool {
    forall|i: int| 0 <= i < xs.len() ==> #[trigger] xs[i] < order()
}

/// Whether the difference of any two of the points has an inverse. Such
/// points differ from one another.
pub open spec fn unit_differences(xs: Seq<nat>) -> bool {
    forall|i: int, j: int|
        0 <= i < xs.len() && 0 <= j < xs.len() && i != j ==> is_unit(
            sub_mod(#[trigger] xs[i], #[trigger] xs[j]),
        )
}

/// The weight of a point that is its power by `m`.
pub open spec fn moment(m: nat) -> spec_fn(nat) -> nat {
    |p: nat| pow_mod(p, m)
}

/// The weight of a point `p` that is `(p - c) * p^m`.
pub open spec fn offset_moment(c: nat, m: nat) -> spec_fn(nat) -> nat {
    |p: nat| mul_mod(sub_mod(p, c), pow_mod(p, m))
}

/// The weight that is the same for every point.
pub open spec fn constant(k: nat) -> spec_fn(nat) -> nat {
    |p: nat| k
}

/// Zero has no inverse, so points with invertible differences differ.
pub proof fn lemma_unit_differences_distinct(xs: Seq<nat>, i: int, j: int)
    requires
        unit_differences(xs),
        0 <= i < xs.len(),
        0 <= j < xs.len(),
        i != j,
    ensures
        xs[i] != xs[j],
{
    if xs[i] == xs[j] {
        let z = sub_mod(xs[i], xs[j]);
        lemma_small_mod(0, order());
        assert(z == 0);
        assert(is_unit(z));
        assert(0 * inverse_of(z) == 0) by (nonlinear_arith);
    }
}

/// The weight `(p - c) * p^m` is congruent to what its name says, and to zero at `c`.
pub proof fn lemma_offset_moment(c: nat, m: nat, p: nat)
    ensures
        cong(offset_moment(c, m)(p) as int, (p - c) * moment(m)(p)),
        p == c ==> cong(offset_moment(c, m)(p) as int, 0),
{
    lemma_sub_mod_cong(p, c, p as int, c as int);
    lemma_mul_mod_cong(sub_mod(p, c), pow_mod(p, m), p - c, pow_mod(p, m) as int);
    if p == c {
        assert((p - c) * moment(m)(p) == 0) by (nonlinear_arith)
            requires
                p - c == 0,
        ;
    }
}

/// Three factors may be multiplied in either order of the last two.
pub proof fn lemma_mul_mod_swap(x: nat, y: nat, z: nat)
    ensures
        mul_mod(mul_mod(x, y), z) == mul_mod(mul_mod(x, z), y),
{
    let (xi, yi, zi) = (x as int, y as int, z as int);
    lemma_mul_mod_cong(x, y, xi, yi);
    lemma_mul_mod_cong(mul_mod(x, y), z, xi * yi, zi);
    lemma_mul_mod_cong(x, z, xi, zi);
    lemma_mul_mod_cong(mul_mod(x, z), y, xi * zi, yi);
    assert((xi * yi) * zi == (xi * zi) * yi) by (nonlinear_arith);
    lemma_cong_reduced(mul_mod(mul_mod(x, y), z), mul_mod(mul_mod(x, z), y));
}

/// The points but the last have invertible differences where all of them have.
pub proof fn lemma_drop_last_keeps(xs: Seq<nat>)
    requires
        xs.len() > 0,
        reduced(xs),
        unit_differences(xs),
    ensures
        reduced(xs.drop_last()),
        unit_differences(xs.drop_last()),
{
    let ys = xs.drop_last();
    assert forall|i: int| 0 <= i < ys.len() implies #[trigger] ys[i] < order() by {
        assert(ys[i] == xs[i]);
    }
    assert forall|i: int, j: int| 0 <= i < ys.len() && 0 <= j < ys.len() && i != j implies is_unit(
        sub_mod(#[trigger] ys[i], #[trigger] ys[j]),
    ) by {
        assert(ys[i] == xs[i] && ys[j] == xs[j]);
    }
}

/// The points but the one before the last have invertible differences where all of them have.
pub proof fn lemma_drop_second_last_keeps(xs: Seq<nat>)
    requires
        xs.len() >= 2,
        reduced(xs),
        unit_differences(xs),
    ensures
        reduced(xs.take(xs.len() - 2).push(xs.last())),
        unit_differences(xs.take(xs.len() - 2).push(xs.last())),
{
    let n = xs.len() as int;
    let ys = xs.take(n - 2).push(xs.last());
    assert forall|i: int| 0 <= i < ys.len() implies #[trigger] ys[i] < order() by {
        if i < n - 2 {
            assert(ys[i] == xs[i]);
        } else {
            assert(ys[i] == xs[n - 1]);
        }
    }
    assert forall|i: int, j: int| 0 <= i < ys.len() && 0 <= j < ys.len() && i != j implies is_unit(
        sub_mod(#[trigger] ys[i], #[trigger] ys[j]),
    ) by {
        let i2 = if i < n - 2 {
            i
        } else {
            n - 1
        };
        let j2 = if j < n - 2 {
            j
        } else {
            n - 1
        };
        assert(ys[i] == xs[i2] && ys[j] == xs[j2]);
    }
}

/// One step down in the power of the moment and in the number of points:
/// the moment of power `m` is congruent to the last point `a` times the
/// moment of power `m - 1`, minus `a` times that moment among the points
/// without the last.
pub proof fn lemma_moment_step(xs: Seq<nat>, m: nat)
    requires
        reduced(xs),
        unit_differences(xs),
        xs.len() >= 1,
        m >= 1,
    ensures
        cong(
            weighted_sum(xs, xs, moment(m)) as int,
            xs.last() * weighted_sum(xs, xs, moment((m - 1) as nat)) + (0 - xs.last())
                * weighted_sum(xs.drop_last(), xs.drop_last(), moment((m - 1) as nat)),
        ),
{
    let n = xs.len() as int;
    let a = xs.last();
    let ya = xs.drop_last();
    let ai = a as int;
    let lower = (m - 1) as nat;
    let om = offset_moment(a, lower);
    // p^m = a * p^(m-1) + (p - a) * p^(m-1)
    assert forall|i: int| 0 <= i < xs.len() implies cong(
        moment(m)(#[trigger] xs[i]) as int,
        ai * moment(lower)(xs[i]) + 1 * om(xs[i]),
    ) by {
        let p = xs[i];
        let q = pow_mod(p, lower);
        lemma_mul_mod_cong(q, p, q as int, p as int);
        lemma_offset_moment(a, lower, p);
        assert(ai * q + (p - ai) * q == q * p) by (nonlinear_arith);
        lemma_cong_add(ai * q, ai * q, om(p) as int, (p - ai) * q);
    }
    lemma_weighted_sum_linear(xs, xs, moment(m), moment(lower), om, ai, 1);
    // the sum of the second part, without the last point, among the other points
    lemma_offset_moment(a, lower, a);
    lemma_weighted_sum_without_last(xs, xs, om);
    assert forall|i: int| 0 <= i < ya.len() implies {
        &&& cong(om(#[trigger] ya[i]) as int, (ya[i] - a) * moment(lower)(ya[i]))
        &&& interpolating_value(xs, ya[i]) == mul_mod(
            interpolating_value(ya, ya[i]),
            basis_factor(a, ya[i]),
        )
        &&& is_unit(sub_mod(a, ya[i]))
    } by {
        assert(ya[i] == xs[i]);
        lemma_offset_moment(a, lower, ya[i]);
        lemma_unit_differences_distinct(xs, n - 1, i);
        assert(is_unit(sub_mod(xs[n - 1], xs[i])));
    }
    lemma_weighted_sum_shrink(xs, ya, ya, a, om, moment(lower));
    let w = weighted_sum(xs, xs, moment(lower)) as int;
    let y = weighted_sum(ya, ya, moment(lower)) as int;
    lemma_cong_add(ai * w, ai * w, 1 * (weighted_sum(xs, xs, om) as int), (0 - ai) * y);
}

/// The sum of the interpolating values of points with invertible
/// differences, each multiplied by the power `m` of its point, is one for
/// `m = 0` and zero for every other `m` below the number of points.
pub proof fn lemma_moments(xs: Seq<nat>, m: nat)
    requires
        reduced(xs),
        unit_differences(xs),
        m < xs.len(),
    ensures
        weighted_sum(xs, xs, moment(m)) == if m == 0 {
            1nat
        } else {
            0nat
        },
    decreases xs.len(), m,
{
    let n = xs.len() as int;
    let a = xs.last();
    let ya = xs.drop_last();
    let ai = a as int;
    lemma_weighted_sum_reduced(xs, xs, moment(m));
    lemma_small_mod(1, order());
    lemma_small_mod(0, order());
    if m >= 1 {
        let lower = (m - 1) as nat;
        lemma_drop_last_keeps(xs);
        lemma_moment_step(xs, m);
        lemma_moments(xs, lower);
        lemma_moments(ya, lower);
        let d: int = if lower == 0 {
            1
        } else {
            0
        };
        assert(ai * d + (0 - ai) * d == 0) by (nonlinear_arith);
        lemma_cong_reduced(weighted_sum(xs, xs, moment(m)), 0);
    } else if n == 1 {
        assert(xs.drop_last().len() == 0);
        assert(interpolating_value(xs, a) == interpolating_value(ya, a));
        assert(interpolating_value(ya, a) == 1);
        assert(moment(0)(a) == 1);
        assert(weighted_sum(xs, ya, moment(0)) == 0);
        assert(mul_mod(1, 1) == 1);
        assert(add_mod(0, 1) == 1);
    } else {
        let b = xs[n - 2];
        let bi = b as int;
        let x0 = xs.take(n - 2);
        let yb = x0.push(a);
        let one = moment(0);
        let va = offset_moment(a, 0);
        let vb = offset_moment(b, 0);
        let k = constant(sub_mod(b, a));
        lemma_drop_last_keeps(xs);
        lemma_drop_second_last_keeps(xs);
        lemma_sub_mod_cong(b, a, bi, ai);
        // b - a = (p - a) - (p - b)
        assert forall|i: int| 0 <= i < xs.len() implies cong(
            k(#[trigger] xs[i]) as int,
            1 * va(xs[i]) + (-1) * vb(xs[i]),
        ) by {
            let p = xs[i];
            lemma_offset_moment(a, 0, p);
            lemma_offset_moment(b, 0, p);
            assert((p - ai) * 1 - (p - bi) * 1 == bi - ai);
            lemma_cong_sub(va(p) as int, (p - ai) * 1, vb(p) as int, (p - bi) * 1);
        }
        lemma_weighted_sum_linear(xs, xs, k, va, vb, 1, -1);
        // b - a = (b - a) * 1
        assert forall|i: int| 0 <= i < xs.len() implies cong(
            k(#[trigger] xs[i]) as int,
            (bi - ai) * one(xs[i]) + 0 * one(xs[i]),
        ) by {
            assert(one(xs[i]) == 1);
            assert((bi - ai) * 1 + 0 * 1 == bi - ai);
        }
        lemma_weighted_sum_linear(xs, xs, k, one, one, bi - ai, 0);
        // without a: the sum of the weights p - a
        lemma_offset_moment(a, 0, a);
        lemma_weighted_sum_without_last(xs, xs, va);
        assert forall|i: int| 0 <= i < ya.len() implies {
            &&& cong(va(#[trigger] ya[i]) as int, (ya[i] - a) * one(ya[i]))
            &&& interpolating_value(xs, ya[i]) == mul_mod(
                interpolating_value(ya, ya[i]),
                basis_factor(a, ya[i]),
            )
            &&& is_unit(sub_mod(a, ya[i]))
        } by {
            assert(ya[i] == xs[i]);
            lemma_offset_moment(a, 0, ya[i]);
            lemma_unit_differences_distinct(xs, n - 1, i);
            assert(is_unit(sub_mod(xs[n - 1], xs[i])));
        }
        lemma_weighted_sum_shrink(xs, ya, ya, a, va, one);
        lemma_moments(ya, 0);
        // without b: the sum of the weights p - b
        lemma_offset_moment(b, 0, b);
        assert(ya.last() == b);
        assert(ya.drop_last() =~= x0);
        assert(yb.drop_last() =~= x0);
        assert(yb.last() == a);
        lemma_weighted_sum_without_last(xs, ya, vb);
        assert(weighted_sum(xs, xs, vb) == weighted_sum(xs, yb, vb));
        lemma_unit_differences_distinct(xs, n - 1, n - 2);
        assert forall|i: int| 0 <= i < yb.len() implies {
            &&& cong(vb(#[trigger] yb[i]) as int, (yb[i] - b) * one(yb[i]))
            &&& interpolating_value(xs, yb[i]) == mul_mod(
                interpolating_value(yb, yb[i]),
                basis_factor(b, yb[i]),
            )
            &&& is_unit(sub_mod(b, yb[i]))
        } by {
            let p = yb[i];
            lemma_offset_moment(b, 0, p);
            if i < n - 2 {
                assert(p == xs[i]);
                lemma_unit_differences_distinct(xs, n - 1, i);
                lemma_unit_differences_distinct(xs, n - 2, i);
                assert(is_unit(sub_mod(xs[n - 2], xs[i])));
                assert(interpolating_value(xs, p) == mul_mod(
                    interpolating_value(ya, p),
                    basis_factor(a, p),
                ));
                assert(interpolating_value(ya, p) == mul_mod(
                    interpolating_value(x0, p),
                    basis_factor(b, p),
                ));
                assert(interpolating_value(yb, p) == mul_mod(
                    interpolating_value(x0, p),
                    basis_factor(a, p),
                ));
                lemma_mul_mod_swap(interpolating_value(x0, p), basis_factor(b, p), basis_factor(a, p));
            } else {
                assert(p == a);
                assert(is_unit(sub_mod(xs[n - 2], xs[n - 1])));
                assert(interpolating_value(xs, a) == interpolating_value(ya, a));
                assert(interpolating_value(ya, a) == mul_mod(
                    interpolating_value(x0, a),
                    basis_factor(b, a),
                ));
                assert(interpolating_value(yb, a) == interpolating_value(x0, a));
            }
        }
        lemma_weighted_sum_shrink(xs, yb, yb, b, vb, one);
        lemma_moments(yb, 0);
        // (b - a) * sum = -a + b, and b - a has an inverse
        let sum = weighted_sum(xs, xs, one);
        let si = sum as int;
        let sa = weighted_sum(xs, xs, va) as int;
        let sb = weighted_sum(xs, xs, vb) as int;
        lemma_cong_sub(1 * sa, (0 - ai) * 1, 1 * sb, (0 - bi) * 1);
        assert(1 * sa + (-1) * sb == 1 * sa - 1 * sb);
        assert((0 - ai) * 1 - (0 - bi) * 1 == bi - ai);
        assert((bi - ai) * si + 0 * si == (bi - ai) * si);
        assert(cong((bi - ai) * si, bi - ai));
        let u = inverse_of(sub_mod(b, a));
        let ui = u as int;
        assert(is_unit(sub_mod(xs[n - 2], xs[n - 1])));
        lemma_mul_mod_cong(sub_mod(b, a), u, bi - ai, ui);
        assert(cong(1, (bi - ai) * ui));
        lemma_cong_mul(si, si, 1, (bi - ai) * ui);
        assert(si * ((bi - ai) * ui) == ((bi - ai) * si) * ui) by (nonlinear_arith);
        lemma_cong_mul((bi - ai) * si, bi - ai, ui, ui);
        assert(si * 1 == si);
        lemma_cong_reduced(sum, 1);
    }
}

/// The weight of a point that is the value of a polynomial there.
pub open spec fn polynomial(coeffs: Seq<nat>) -> spec_fn(nat) -> nat {
    |p: nat| poly_eval(coeffs, p)
}

/// Interpolation at zero recovers the constant term: the sum of the
/// interpolating values of points with invertible differences, each
/// multiplied by the value there of a polynomial with no more coefficients
/// than there are points, is the polynomial's constant term.
pub proof fn lemma_interpolation_recovers_constant(xs: Seq<nat>, coeffs: Seq<nat>)
    requires
        reduced(xs),
        unit_differences(xs),
        1 <= coeffs.len() <= xs.len(),
        coeffs[0] < order(),
    ensures
        weighted_sum(xs, xs, polynomial(coeffs)) == coeffs[0],
    decreases coeffs.len(),
{
    let lower = coeffs.drop_last();
    let last = coeffs.last() as int;
    let e = (coeffs.len() - 1) as nat;
    let c0 = coeffs[0] as int;
    assert forall|i: int| 0 <= i < xs.len() implies cong(
        polynomial(coeffs)(#[trigger] xs[i]) as int,
        1 * polynomial(lower)(xs[i]) + last * moment(e)(xs[i]),
    ) by {
        let p = xs[i];
        lemma_mul_mod_cong(coeffs.last(), pow_mod(p, e), last, pow_mod(p, e) as int);
        lemma_add_mod_cong(
            poly_eval(lower, p),
            mul_mod(coeffs.last(), pow_mod(p, e)),
            poly_eval(lower, p) as int,
            last * pow_mod(p, e),
        );
    }
    lemma_weighted_sum_linear(xs, xs, polynomial(coeffs), polynomial(lower), moment(e), 1, last);
    lemma_moments(xs, e);
    lemma_weighted_sum_reduced(xs, xs, polynomial(coeffs));
    let s = weighted_sum(xs, xs, polynomial(lower)) as int;
    if coeffs.len() == 1 {
        assert forall|i: int| 0 <= i < xs.len() implies cong(
            polynomial(lower)(#[trigger] xs[i]) as int,
            0int * moment(0)(xs[i]) + 0int * moment(0)(xs[i]),
        ) by {
            assert(poly_eval(lower, xs[i]) == 0);
        }
        lemma_weighted_sum_linear(xs, xs, polynomial(lower), moment(0), moment(0), 0, 0);
        lemma_weighted_sum_reduced(xs, xs, polynomial(lower));
        lemma_cong_reduced(weighted_sum(xs, xs, polynomial(lower)), 0);
        assert(1 * s + last * 1 == c0);
    } else {
        lemma_interpolation_recovers_constant(xs, lower);
        assert(lower[0] == coeffs[0]);
        assert(1 * s + last * 0 == c0);
    }
    lemma_cong_reduced(weighted_sum(xs, xs, polynomial(coeffs)), coeffs[0]);
}

/// The product of the negatives of the points.
pub open spec fn negated_product(xs: Seq<nat>) -> nat
    decreases xs.len(),
{
    if xs.len() == 0 {
        1
    } else {
        mul_mod(negated_product(xs.drop_last()), sub_mod(0, xs.last()))
    }
}

/// The moment whose power is the number of points: the sum of the
/// interpolating values of points with invertible differences, each
/// multiplied by that power of its point, is the negative of the product of
/// the negatives of the points.
pub proof fn lemma_top_moment(xs: Seq<nat>)
    requires
        reduced(xs),
        unit_differences(xs),
        xs.len() >= 1,
    ensures
        weighted_sum(xs, xs, moment(xs.len())) == sub_mod(0, negated_product(xs)),
    decreases xs.len(),
{
    let n = xs.len();
    let a = xs.last();
    let ya = xs.drop_last();
    let ai = a as int;
    let lower = (n - 1) as nat;
    let np = negated_product(ya) as int;
    lemma_small_mod(1, order());
    lemma_small_mod(0, order());
    lemma_drop_last_keeps(xs);
    lemma_moment_step(xs, n);
    lemma_moments(xs, lower);
    let w = weighted_sum(xs, xs, moment(lower)) as int;
    let y = weighted_sum(ya, ya, moment(lower)) as int;
    // the right side: -(np * (0 - a)), congruent to a * np
    lemma_sub_mod_cong(0, a, 0, ai);
    lemma_mul_mod_cong(negated_product(ya), sub_mod(0, a), np, 0 - ai);
    lemma_sub_mod_cong(0, negated_product(xs), 0, np * (0 - ai));
    assert(0 - np * (0 - ai) == ai * np) by (nonlinear_arith);
    if n == 1 {
        assert(ya.len() == 0);
        assert(y == 0);
        assert(np == 1);
        assert(ai * w + (0 - ai) * y == ai * np) by (nonlinear_arith)
            requires
                w == 1,
                y == 0,
                np == 1,
        ;
    } else {
        lemma_top_moment(ya);
        lemma_sub_mod_cong(0, negated_product(ya), 0, np);
        lemma_cong_mul(0 - ai, 0 - ai, y, 0 - np);
        lemma_cong_add(ai * w, ai * w, (0 - ai) * y, (0 - ai) * (0 - np));
        assert(ai * w + (0 - ai) * (0 - np) == ai * np) by (nonlinear_arith)
            requires
                w == 0,
        ;
    }
    lemma_weighted_sum_reduced(xs, xs, moment(n));
    lemma_cong_reduced(weighted_sum(xs, xs, moment(n)), sub_mod(0, negated_product(xs)));
}

/// Interpolation from one point too few: for a polynomial with one more
/// coefficient than there are points, the sum of the interpolating values,
/// each multiplied by the polynomial's value there, is the constant term
/// minus the highest coefficient times the product of the negatives of the
/// points.
pub proof fn lemma_interpolation_one_short(xs: Seq<nat>, coeffs: Seq<nat>)
    requires
        reduced(xs),
        unit_differences(xs),
        xs.len() >= 1,
        coeffs.len() == xs.len() + 1,
        coeffs[0] < order(),
    ensures
        weighted_sum(xs, xs, polynomial(coeffs)) == sub_mod(
            coeffs[0],
            mul_mod(coeffs.last(), negated_product(xs)),
        ),
{
    let n = xs.len();
    let lower = coeffs.drop_last();
    let last = coeffs.last() as int;
    let c0 = coeffs[0] as int;
    let np = negated_product(xs) as int;
    assert forall|i: int| 0 <= i < xs.len() implies cong(
        polynomial(coeffs)(#[trigger] xs[i]) as int,
        1 * polynomial(lower)(xs[i]) + last * moment(n)(xs[i]),
    ) by {
        let p = xs[i];
        lemma_mul_mod_cong(coeffs.last(), pow_mod(p, n), last, pow_mod(p, n) as int);
        lemma_add_mod_cong(
            poly_eval(lower, p),
            mul_mod(coeffs.last(), pow_mod(p, n)),
            poly_eval(lower, p) as int,
            last * pow_mod(p, n),
        );
    }
    lemma_weighted_sum_linear(xs, xs, polynomial(coeffs), polynomial(lower), moment(n), 1, last);
    lemma_interpolation_recovers_constant(xs, lower);
    assert(lower[0] == coeffs[0]);
    lemma_top_moment(xs);
    // the sum: c0 + last * (0 - np); the right side: c0 - last * np
    lemma_sub_mod_cong(0, negated_product(xs), 0, np);
    lemma_cong_mul(last, last, weighted_sum(xs, xs, moment(n)) as int, 0 - np);
    lemma_cong_add(1 * c0, 1 * c0, last * weighted_sum(xs, xs, moment(n)), last * (0 - np));
    lemma_mul_mod_cong(coeffs.last(), negated_product(xs), last, np);
    lemma_sub_mod_cong(coeffs[0], mul_mod(coeffs.last(), negated_product(xs)), c0, last * np);
    assert(1 * c0 + last * (0 - np) == c0 - last * np) by (nonlinear_arith);
    lemma_weighted_sum_reduced(xs, xs, polynomial(coeffs));
    lemma_cong_reduced(
        weighted_sum(xs, xs, polynomial(coeffs)),
        sub_mod(coeffs[0], mul_mod(coeffs.last(), negated_product(xs))),
    );
}

/// What one share too few interpolates to under one secret, it interpolates
/// to under any other secret as well, with another highest coefficient: the
/// value tells nothing of the secret. The coefficient returned is that other
/// one. The product of the negatives of the points must have an inverse.
pub proof fn lemma_one_short_hides_secret(xs: Seq<nat>, secret: nat, other: nat, top: nat) -> (r:
    nat)
    requires
        is_unit(negated_product(xs)),
    ensures
        r < order(),
        sub_mod(secret, mul_mod(top, negated_product(xs))) == sub_mod(
            other,
            mul_mod(r, negated_product(xs)),
        ),
{
    let np = negated_product(xs);
    let u = inverse_of(np);
    let shift = mul_mod(sub_mod(other, secret), u);
    let r = add_mod(top, shift);
    let (si, oi, ti, ni, ui) = (secret as int, other as int, top as int, np as int, u as int);
    // np * u is congruent to one
    lemma_mul_mod_cong(np, u, ni, ui);
    assert(cong(ni * ui, 1));
    // r is congruent to top + (other - secret) * u
    lemma_sub_mod_cong(other, secret, oi, si);
    lemma_mul_mod_cong(sub_mod(other, secret), u, oi - si, ui);
    lemma_add_mod_cong(top, shift, ti, (oi - si) * ui);
    // r * np is congruent to top * np + (other - secret)
    lemma_mul_mod_cong(r, np, ti + (oi - si) * ui, ni);
    assert((ti + (oi - si) * ui) * ni == ti * ni + (oi - si) * (ni * ui)) by (nonlinear_arith);
    lemma_cong_mul(oi - si, oi - si, ni * ui, 1);
    lemma_cong_add(ti * ni, ti * ni, (oi - si) * (ni * ui), (oi - si) * 1);
    // both sides
    lemma_sub_mod_cong(other, mul_mod(r, np), oi, ti * ni + (oi - si) * 1);
    lemma_mul_mod_cong(top, np, ti, ni);
    lemma_sub_mod_cong(secret, mul_mod(top, np), si, ti * ni);
    assert(oi - (ti * ni + (oi - si) * 1) == si - ti * ni);
    lemma_cong_reduced(sub_mod(secret, mul_mod(top, np)), sub_mod(other, mul_mod(r, np)));
    r
}

/// The interpolating values of all the points, in their order.
pub open spec fn interpolating_values(xs: Seq<nat>) -> Seq<nat> {
    Seq::new(xs.len(), |i: int| interpolating_value(xs, xs[i]))
}

/// An interpolating value is below the group order.
pub proof fn lemma_interpolating_value_reduced(xs: Seq<nat>, xi: nat)
    ensures
        interpolating_value(xs, xi) < order(),
    decreases xs.len(),
{
    if xs.len() == 0 {
    } else if xs.last() == xi {
        lemma_interpolating_value_reduced(xs.drop_last(), xi);
    } else {
        lemma_cong_mod((interpolating_value(xs.drop_last(), xi) * basis_factor(xs.last(), xi)) as int);
    }
}

/// The sum of the first `k` interpolating values is their sum weighted by one.
proof fn lemma_sum_of_interpolating_values(xs: Seq<nat>, k: nat)
    requires
        k <= xs.len(),
    ensures
        sum_mod(interpolating_values(xs).take(k as int)) == weighted_sum(
            xs,
            xs.take(k as int),
            moment(0),
        ),
    decreases k,
{
    if k > 0 {
        let values = interpolating_values(xs);
        let l = interpolating_value(xs, xs[k - 1]);
        lemma_sum_of_interpolating_values(xs, (k - 1) as nat);
        assert(values.take(k as int).drop_last() =~= values.take(k - 1));
        assert(xs.take(k as int).drop_last() =~= xs.take(k - 1));
        assert(values.take(k as int).last() == l);
        assert(xs.take(k as int).last() == xs[k - 1]);
        lemma_interpolating_value_reduced(xs, xs[k - 1]);
        assert(moment(0)(xs[k - 1]) == 1);
        assert(1 * l == l) by (nonlinear_arith);
        lemma_small_mod(l, order());
    }
}

/// The interpolating values of points whose differences have inverses sum to one.
pub proof fn lemma_interpolating_values_sum_to_one(xs: Seq<nat>)
    requires
        xs.len() >= 1,
        reduced(xs),
        unit_differences(xs),
    ensures
        sum_mod(interpolating_values(xs)) == 1,
{
    lemma_moments(xs, 0);
    lemma_sum_of_interpolating_values(xs, xs.len());
    assert(xs.take(xs.len() as int) =~= xs);
    assert(interpolating_values(xs).take(xs.len() as int) =~= interpolating_values(xs));
}

} // verus!
