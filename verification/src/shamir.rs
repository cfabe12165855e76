//! Shamir's secret sharing over the scalar field: a dealer splits a secret
//! into shares of a random polynomial, and enough of them recover it.

use crate::helper::{fresh_scalars, interpolating_value, lagrange_coefficient, unit_row};
use crate::interpolation::{
    lemma_interpolation_one_short, lemma_interpolation_recovers_constant, negated_product,
    polynomial, reduced, unit_differences, weighted_sum,
};
use crate::scalar::{
    add_mod, is_unit, mul_mod, order, pow_mod, scalar_values, seeded_scalars, sub_mod, Scalar,
};
use vstd::prelude::*;

verus! {

/// One share: the point at which the polynomial was evaluated, and its value there.
pub struct ShamirShare {
    pub index: usize,
    pub secret: Scalar,
}

/// The value at `x` of the polynomial with the given coefficients, constant term first.
pub open spec fn poly_eval(coeffs: Seq<nat>, x: nat) -> nat
    decreases coeffs.len(),
{
    if coeffs.len() == 0 {
        0
    } else {
        add_mod(
            poly_eval(coeffs.drop_last(), x),
            mul_mod(coeffs.last(), pow_mod(x, (coeffs.len() - 1) as nat)),
        )
    }
}

/// Whether the shares are those of the polynomial at the points 1, 2, and so on.
pub open spec fn shares_of(shares: Seq<ShamirShare>, coeffs: Seq<nat>) -> bool {
    forall|i: int|
        0 <= i < shares.len() ==> (#[trigger] shares[i]).index == i + 1 && shares[i].secret@
            == poly_eval(coeffs, (i + 1) as nat)
}

/// Whether each share holds the value of the polynomial at the share's point.
pub open spec fn shares_on(shares: Seq<ShamirShare>, coeffs: Seq<nat>) -> bool {
    forall|i: int|
        0 <= i < shares.len() ==> (#[trigger] shares[i]).secret@ == poly_eval(
            coeffs,
            shares[i].index as nat,
        )
}

/// The points of a list of shares.
pub open spec fn share_points(shares: Seq<ShamirShare>) -> Seq<nat> {
    shares.map_values(|s: ShamirShare| s.index as nat)
}

/// The sum, over the first `k` shares, of the share's value multiplied by the
/// interpolating value of its point among all the points.
pub open spec fn interpolation_sum(shares: Seq<ShamirShare>, k: nat) -> nat
    decreases k,
{
    if k == 0 {
        0
    } else {
        add_mod(
            interpolation_sum(shares, (k - 1) as nat),
            mul_mod(
                shares[k - 1].secret@,
                interpolating_value(share_points(shares), shares[k - 1].index as nat),
            ),
        )
    }
}

/// Whether no two shares of the list have the same point.
pub open spec fn distinct_points(shares: Seq<ShamirShare>) -> bool {
    forall|i: int, j: int|
        0 <= i < shares.len() && 0 <= j < shares.len() && i != j ==> (#[trigger] shares[i]).index
            != (#[trigger] shares[j]).index
}

/// For shares of a polynomial, the interpolation sum is the weighted sum of
/// the polynomial's values over the shares' points.
pub proof fn lemma_interpolation_sum_of_shares(shares: Seq<ShamirShare>, coeffs: Seq<nat>, k: nat)
    requires
        shares_on(shares, coeffs),
        k <= shares.len(),
    ensures
        interpolation_sum(shares, k) == weighted_sum(
            share_points(shares),
            share_points(shares).take(k as int),
            polynomial(coeffs),
        ),
    decreases k,
{
    if k > 0 {
        let points = share_points(shares);
        lemma_interpolation_sum_of_shares(shares, coeffs, (k - 1) as nat);
        assert(points.take(k as int).drop_last() =~= points.take(k - 1));
        assert(points.take(k as int).last() == shares[k - 1].index as nat);
        assert(shares[k - 1].secret@ == polynomial(coeffs)(shares[k - 1].index as nat));
    }
}

/// Whether each of the chosen shares is one of the shares dealt.
pub open spec fn drawn_from(chosen: Seq<ShamirShare>, dealt: Seq<ShamirShare>) -> bool {
    forall|i: int| 0 <= i < chosen.len() ==> dealt.contains(#[trigger] chosen[i])
}

/// Any shares dealt of a polynomial, at least as many as it has coefficients
/// and taken in any order, interpolate to its constant term, where the
/// differences of their points have inverses.
pub proof fn lemma_shares_recover_secret(
    dealt: Seq<ShamirShare>,
    coeffs: Seq<nat>,
    chosen: Seq<ShamirShare>,
)
    requires
        shares_of(dealt, coeffs),
        drawn_from(chosen, dealt),
        1 <= coeffs.len() <= chosen.len(),
        coeffs[0] < order(),
        unit_differences(share_points(chosen)),
    ensures
        interpolation_sum(chosen, chosen.len()) == coeffs[0],
{
    let points = share_points(chosen);
    assert(shares_on(chosen, coeffs)) by {
        assert forall|i: int| 0 <= i < chosen.len() implies (#[trigger] chosen[i]).secret@
            == poly_eval(coeffs, chosen[i].index as nat) by {
            assert(dealt.contains(chosen[i]));
            let j = choose|j: int| 0 <= j < dealt.len() && dealt[j] == chosen[i];
            assert(dealt[j].index == j + 1);
        }
    }
    assert(reduced(points)) by {
        assert(usize::MAX < order());
        assert forall|k: int| 0 <= k < points.len() implies #[trigger] points[k] < order() by {
            assert(points[k] == chosen[k].index);
        }
    }
    lemma_interpolation_sum_of_shares(chosen, coeffs, chosen.len());
    assert(points.take(chosen.len() as int) =~= points);
    lemma_interpolation_recovers_constant(points, coeffs);
}

/// The values of a list of scalars.
pub open spec fn coefficient_values(coeffs: Seq<Scalar>) -> Seq<nat> {
    scalar_values(coeffs)
}

/// The value of a polynomial at a point.
fn evaluate(coeffs: &Vec<Scalar>, x: &Scalar) -> (r: Scalar)
    ensures
        r@ == poly_eval(coefficient_values(coeffs@), x@),
{
    let ghost values = coefficient_values(coeffs@);
    let mut y = Scalar::zero();
    let mut j: usize = 0;
    while j < coeffs.len()
        invariant
            j <= coeffs.len(),
            values == coefficient_values(coeffs@),
            y@ == poly_eval(values.take(j as int), x@),
        decreases coeffs.len() - j,
    {
        proof {
            assert(values.take(j + 1).drop_last() =~= values.take(j as int));
            assert(values.take(j + 1).last() == coeffs@[j as int]@);
        }
        y = y.add(&coeffs[j].mul(&x.pow(j as u64)));
        j += 1;
    }
    proof {
        assert(values.take(j as int) =~= values);
    }
    y
}

/// The shares of the polynomial with the given coefficients at the points 1 to `n`.
pub fn shares_from_coefficients(coeffs: &Vec<Scalar>, n: usize) -> (r: Vec<ShamirShare>)
    ensures
        r@.len() == n,
        shares_of(r@, coefficient_values(coeffs@)),
{
    let mut shares: Vec<ShamirShare> = Vec::new();
    let mut i: usize = 0;
    while i < n
        invariant
            i <= n,
            shares@.len() == i,
            shares_of(shares@, coefficient_values(coeffs@)),
        decreases n - i,
    {
        let index = i + 1;
        let x = Scalar::from_u64(index as u64);
        let y = evaluate(coeffs, &x);
        shares.push(ShamirShare { index, secret: y });
        i += 1;
    }
    shares
}

/// Splits a secret into `n` shares of which any `t` recover it: the shares of
/// a polynomial of degree `t - 1` whose constant term is the secret and whose
/// other coefficients are drawn at random, from a seed of 32 random bytes.
pub fn shamir_split(secret: Scalar, t: usize, n: usize) -> (r: Vec<ShamirShare>)
    requires
        2 <= t <= n,
    ensures
        r@.len() == n,
        exists|coeffs: Seq<nat>|
            coeffs.len() == t && coeffs[0] == secret@ && shares_of(r@, coeffs) && (forall|j: int|
                0 <= j < t ==> #[trigger] coeffs[j] < order()),
        exists|seed: Seq<u8>|
            seed.len() == 32 && shares_of(
                r@,
                seq![secret@] + seeded_scalars(seed, (t - 1) as nat),
            ),
{
    let drawn = fresh_scalars(t - 1);
    let mut coeffs: Vec<Scalar> = Vec::new();
    coeffs.push(secret);
    proof {
        use_type_invariant(&secret);
    }
    let mut j: usize = 0;
    while j < drawn.len()
        invariant
            j <= drawn.len(),
            coeffs@.len() == j + 1,
            coeffs@[0] == secret,
            forall|k: int| 0 <= k <= j ==> (#[trigger] coeffs@[k])@ < order(),
            forall|k: int| 1 <= k <= j ==> #[trigger] coeffs@[k] == drawn@[k - 1],
        decreases drawn.len() - j,
    {
        let coefficient = drawn[j];
        proof {
            use_type_invariant(&coefficient);
        }
        coeffs.push(coefficient);
        j += 1;
    }
    let shares = shares_from_coefficients(&coeffs, n);
    proof {
        let values = coefficient_values(coeffs@);
        assert forall|j: int| 0 <= j < t implies #[trigger] values[j] < order() by {
            assert(coeffs@[j]@ < order());
        }
        assert(values.len() == t && values[0] == secret@ && shares_of(shares@, values));
        assert(values =~= seq![secret@] + scalar_values(drawn@));
    }
    shares
}

/// The value at zero of the polynomial of least degree through the shares,
/// whose points must differ from one another. Where the shares are those of
/// a polynomial with no more coefficients than there are shares, that value
/// is the polynomial's constant term: the secret. Where there is one share
/// too few, it is the secret minus the highest coefficient times the product
/// of the negatives of the points.
pub fn shamir_reconstruct(shares: &[ShamirShare]) -> (r: Scalar)
    requires
        distinct_points(shares@),
    ensures
        r@ == interpolation_sum(shares@, shares@.len()),
        forall|coeffs: Seq<nat>|
            #[trigger] shares_on(shares@, coeffs) && 1 <= coeffs.len() <= shares@.len() && coeffs[0]
                < order() ==> r@ == coeffs[0],
        forall|coeffs: Seq<nat>|
            #[trigger] shares_on(shares@, coeffs) && shares@.len() >= 1 && coeffs.len()
                == shares@.len() + 1 && coeffs[0] < order() ==> r@ == sub_mod(
                coeffs[0],
                mul_mod(coeffs.last(), negated_product(share_points(shares@))),
            ),
{
    let ghost points = share_points(shares@);
    let mut xs: Vec<Scalar> = Vec::new();
    let mut k: usize = 0;
    while k < shares.len()
        invariant
            k <= shares.len(),
            xs@.len() == k,
            forall|j: int| 0 <= j < k ==> (#[trigger] xs@[j])@ == shares@[j].index,
        decreases shares.len() - k,
    {
        xs.push(Scalar::from_u64(shares[k].index as u64));
        k += 1;
    }
    assert(scalar_values(xs@) =~= points);
    let mut secret = Scalar::zero();
    let mut i: usize = 0;
    while i < shares.len()
        invariant
            i <= shares.len(),
            xs@.len() == shares@.len(),
            scalar_values(xs@) == points,
            points == share_points(shares@),
            secret@ == interpolation_sum(shares@, i as nat),
            forall|k: int| 0 <= k < i ==> unit_row(points, #[trigger] points[k]),
        decreases shares.len() - i,
    {
        let lagrange_coeff = lagrange_coefficient(xs.as_slice(), &xs[i]);
        assert(xs@[i as int]@ == points[i as int]);
        secret = secret.add(&shares[i].secret.mul(&lagrange_coeff));
        i += 1;
    }
    proof {
        assert(reduced(points)) by {
            assert(usize::MAX < order());
            assert forall|k: int| 0 <= k < points.len() implies #[trigger] points[k] < order() by {
                assert(points[k] == shares@[k].index);
            }
        }
        assert(unit_differences(points)) by {
            assert forall|a: int, b: int|
                0 <= a < points.len() && 0 <= b < points.len() && a != b implies is_unit(
                sub_mod(#[trigger] points[a], #[trigger] points[b]),
            ) by {
                assert(unit_row(points, points[b]));
                assert(shares@[a].index != shares@[b].index);
            }
        }
        assert forall|coeffs: Seq<nat>|
            #[trigger] shares_on(shares@, coeffs) && 1 <= coeffs.len() <= shares@.len() && coeffs[0]
                < order() implies secret@ == coeffs[0] by {
            lemma_interpolation_sum_of_shares(shares@, coeffs, shares@.len());
            assert(points.take(shares@.len() as int) =~= points);
            lemma_interpolation_recovers_constant(points, coeffs);
        }
        assert forall|coeffs: Seq<nat>|
            #[trigger] shares_on(shares@, coeffs) && shares@.len() >= 1 && coeffs.len()
                == shares@.len() + 1 && coeffs[0] < order() implies secret@ == sub_mod(
            coeffs[0],
            mul_mod(coeffs.last(), negated_product(points)),
        ) by {
            lemma_interpolation_sum_of_shares(shares@, coeffs, shares@.len());
            assert(points.take(shares@.len() as int) =~= points);
            lemma_interpolation_one_short(points, coeffs);
        }
    }
    secret
}

} // verus!
