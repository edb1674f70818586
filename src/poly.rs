//! Polynomials over GF(256): construction from drawn coefficients, Horner evaluation, the share
//! evaluator, and Lagrange interpolation at zero.
use vstd::prelude::*;

use crate::gf256::{gf_inv, gf_mul, GF256};
use crate::share::Share;

verus! {

/// Horner evaluation of coefficients in descending order of degree: the
/// accumulator starts at 0 and takes `acc * x + c` for each coefficient `c`.
pub open spec fn eval_poly(coeffs: Seq<GF256>, x: u8) -> u8
    decreases coeffs.len(),
{
    if coeffs.len() == 0 {
        0
    } else {
        gf_mul(eval_poly(coeffs.drop_last(), x), x) ^ coeffs.last().0
    }
}

/// The Lagrange basis polynomial of point `j` evaluated at zero, over the points
/// before `end`: the product of `x_m / (x_j - x_m)` for every `x_m` that differs
/// from `x_j`, taken from left to right.
pub open spec fn basis_at_zero(xs: Seq<u8>, j: int, end: int) -> u8
    decreases end,
{
    if end <= 0 {
        1
    } else {
        let acc = basis_at_zero(xs, j, end - 1);
        let xm = xs[end - 1];
        if xm == xs[j] {
            acc
        } else {
            gf_mul(acc, gf_mul(xm, gf_inv(xs[j] ^ xm)))
        }
    }
}

/// The Lagrange interpolation at zero of the points `(xs[j], ys[j])`, summing
/// the terms of the points before `end`.
pub open spec fn lagrange_at_zero(xs: Seq<u8>, ys: Seq<u8>, end: int) -> u8
    decreases end,
{
    if end <= 0 {
        0
    } else {
        lagrange_at_zero(xs, ys, end - 1) ^ gf_mul(
            basis_at_zero(xs, end - 1, xs.len() as int),
            ys[end - 1],
        )
    }
}

/// The x-coordinates of a list of shares.
pub open spec fn xs_of(shares: Seq<Share>) -> Seq<u8> {
    shares.map_values(|s: Share| s.x.0)
}

/// The y-values at byte position `i` of a list of shares.
pub open spec fn ys_of(shares: Seq<Share>, i: int) -> Seq<u8> {
    shares.map_values(|s: Share| s.y@[i].0)
}

/// All shares carry as many y-values as the first.
pub open spec fn same_lengths(shares: Seq<Share>) -> bool {
    forall|j: int| 0 <= j < shares.len() ==> #[trigger] shares[j].y@.len() == shares[0].y@.len()
}

/// The bytes that interpolation at zero recovers from a list of shares, one per
/// y-position.
pub open spec fn interpolated(shares: Seq<Share>) -> Seq<u8> {
    if shares.len() == 0 {
        seq![]
    } else {
        Seq::new(
            shares[0].y@.len(),
            |i: int| lagrange_at_zero(xs_of(shares), ys_of(shares, i), shares.len() as int),
        )
    }
}

/// A share is the evaluation of every polynomial at its x-coordinate.
pub open spec fn is_evaluation(polys: Seq<Seq<GF256>>, x: u8, share: Share) -> bool {
    &&& share.x.0 == x
    &&& share.y@.len() == polys.len()
    &&& forall|i: int| 0 <= i < polys.len() ==> (#[trigger] share.y@[i]).0 == eval_poly(polys[i], x)
}

/// A polynomial that hides `secret_byte` for threshold `threshold`: `threshold`
/// coefficients (one when the threshold is 0), the constant term last and
/// equal to the secret byte.
pub open spec fn is_sharing_polynomial(poly: Seq<GF256>, secret_byte: u8, threshold: u8) -> bool {
    &&& poly.len() == (if threshold == 0 { 1 } else { threshold as int })
    &&& poly.last().0 == secret_byte
}

/// The polynomial whose leading coefficients are `draws`, in order, and whose
/// constant term is `secret_byte`.
pub open spec fn polynomial_of(draws: Seq<u8>, secret_byte: u8) -> Seq<GF256> {
    draws.map_values(|b: u8| GF256(b)).push(GF256(secret_byte))
}

/// Evaluates `coefficients` (descending order of degree) at `x` by Horner's method.
pub fn evaluate_polynomial(coefficients: &[GF256], x: GF256) -> (r: GF256)
    ensures
        r.0 == eval_poly(coefficients@, x.0),
{
    let mut acc = GF256(0);
    let mut i: usize = 0;
    while i < coefficients.len()
        invariant
            i <= coefficients@.len(),
            acc.0 == eval_poly(coefficients@.take(i as int), x.0),
        decreases coefficients@.len() - i,
    {
        acc = acc * x + coefficients[i];
        i += 1;
        proof {
            assert(coefficients@.take(i as int).drop_last() =~= coefficients@.take((i - 1) as int));
        }
    }
    proof {
        assert(coefficients@.take(i as int) =~= coefficients@);
    }
    acc
}

/// The polynomial of `count` drawn coefficients starting at `draws[start]`,
/// followed by `secret_byte` as the constant term.
pub(crate) fn polynomial_from_range(secret_byte: GF256, draws: &[u8], start: usize, count: usize) -> (r:
    Vec<GF256>)
    requires
        start + count <= draws@.len(),
    ensures
        r@ == polynomial_of(draws@.subrange(start as int, start + count), secret_byte.0),
{
    let n = draws.len();
    let mut coefficients: Vec<GF256> = Vec::new();
    let mut i: usize = 0;
    while i < count
        invariant
            n == draws@.len(),
            start + count <= draws@.len(),
            i <= count,
            coefficients@ == draws@.subrange(start as int, start + i).map_values(|b: u8| GF256(b)),
        decreases count - i,
    {
        coefficients.push(GF256(draws[start + i]));
        i += 1;
        proof {
            assert(draws@.subrange(start as int, start + i).map_values(|b: u8| GF256(b))
                =~= draws@.subrange(start as int, start + i - 1).map_values(|b: u8| GF256(b)).push(
                GF256(draws@[start + i - 1]),
            ));
        }
    }
    coefficients.push(secret_byte);
    proof {
        assert(coefficients@ =~= polynomial_of(
            draws@.subrange(start as int, start + count),
            secret_byte.0,
        ));
    }
    coefficients
}

/// The polynomial of degree `draws.len()` whose leading coefficients are the
/// drawn bytes, in order, and whose constant term is `secret_byte`. A split
/// draws them uniformly from 1..=255.
pub fn polynomial_from(secret_byte: GF256, draws: &[u8]) -> (r: Vec<GF256>)
    ensures
        r@ == polynomial_of(draws@, secret_byte.0),
{
    proof {
        assert(draws@.subrange(0, draws@.len() as int) =~= draws@);
    }
    polynomial_from_range(secret_byte, draws, 0, draws.len())
}

/// The lazy sequence of shares of a list of polynomials: the share at `x` holds
/// every polynomial evaluated at `x`, for `x` from 1 to 255.
pub struct Evaluator {
    polys: Vec<Vec<GF256>>,
}

impl Evaluator {
    /// The polynomials that this evaluator evaluates.
    pub closed spec fn polys(&self) -> Seq<Seq<GF256>> {
        self.polys@.map_values(|p: Vec<GF256>| p@)
    }

    /// The share at the nonzero coordinate `x` (at zero the polynomials hold
    /// the secret itself).
    pub fn share_at(&self, x: u8) -> (r: Share)
        requires
            x != 0,
        ensures
            is_evaluation(self.polys(), x, r),
    {
        let mut y: Vec<GF256> = Vec::new();
        let mut i: usize = 0;
        while i < self.polys.len()
            invariant
                i <= self.polys@.len(),
                y@.len() == i,
                forall|k: int| 0 <= k < i ==> (#[trigger] y@[k]).0 == eval_poly(self.polys()[k], x),
            decreases self.polys@.len() - i,
        {
            let v = evaluate_polynomial(self.polys[i].as_slice(), GF256(x));
            y.push(v);
            i += 1;
        }
        Share::new(GF256(x), y)
    }

    /// The first `n` shares of the sequence (all 255 when `n` is larger), at
    /// x = 1, 2, ... in order.
    pub fn take(&self, n: usize) -> (r: Vec<Share>)
        ensures
            r@.len() == if n < 255 { n as int } else { 255 },
            forall|k: int| 0 <= k < r@.len() ==> is_evaluation(self.polys(), (k + 1) as u8, #[trigger] r@[k]),
    {
        let count: usize = if n < 255 { n } else { 255 };
        let mut shares: Vec<Share> = Vec::new();
        let mut k: usize = 0;
        while k < count
            invariant
                k <= count <= 255,
                shares@.len() == k,
                forall|j: int| 0 <= j < k ==> is_evaluation(self.polys(), (j + 1) as u8, #[trigger] shares@[j]),
            decreases count - k,
        {
            let share = self.share_at((k + 1) as u8);
            shares.push(share);
            k += 1;
        }
        shares
    }
}

/// The evaluator of `polys`: shares at x = 1 to 255, one y-value per polynomial.
pub fn evaluator(polys: Vec<Vec<GF256>>) -> (r: Evaluator)
    ensures
        r.polys() == polys@.map_values(|p: Vec<GF256>| p@),
{
    Evaluator { polys }
}

proof fn lemma_distinct_difference(a: u8, b: u8)
    by (bit_vector)
    requires
        a != b,
    ensures
        a ^ b != 0,
{
}

/// Lagrange interpolation at zero of byte position `byte_index`, over the
/// first `count` shares.
fn lagrange_interpolate_at_zero(shares: &[Share], count: usize, byte_index: usize) -> (r: GF256)
    requires
        count <= shares@.len(),
        forall|j: int| 0 <= j < count ==> byte_index < (#[trigger] shares@[j]).y@.len(),
    ensures
        r.0 == lagrange_at_zero(
            xs_of(shares@.take(count as int)),
            ys_of(shares@.take(count as int), byte_index as int),
            count as int,
        ),
{
    let ghost points = shares@.take(count as int);
    let ghost xs = xs_of(points);
    let ghost ys = ys_of(points, byte_index as int);
    let mut sum = GF256(0);
    let mut j: usize = 0;
    while j < count
        invariant
            j <= count <= shares@.len(),
            points == shares@.take(count as int),
            xs == xs_of(points),
            ys == ys_of(points, byte_index as int),
            forall|j: int| 0 <= j < count ==> byte_index < (#[trigger] shares@[j]).y@.len(),
            sum.0 == lagrange_at_zero(xs, ys, j as int),
        decreases count - j,
    {
        let xj = shares[j].x;
        let mut basis = GF256(1);
        let mut m: usize = 0;
        while m < count
            invariant
                m <= count <= shares@.len(),
                j < count,
                points == shares@.take(count as int),
                xs == xs_of(points),
                xj == shares@[j as int].x,
                basis.0 == basis_at_zero(xs, j as int, m as int),
            decreases count - m,
        {
            let xm = shares[m].x;
            if xm.0 != xj.0 {
                proof {
                    lemma_distinct_difference(xj.0, xm.0);
                }
                basis = basis * (xm / (xj - xm));
            }
            m += 1;
        }
        sum = sum + basis * shares[j].y[byte_index];
        j += 1;
    }
    sum
}

/// Interpolates at zero over the first `count` shares, one byte per y-position.
pub(crate) fn interpolate_first(shares: &[Share], count: usize) -> (r: Vec<u8>)
    requires
        1 <= count <= shares@.len(),
        same_lengths(shares@),
    ensures
        r@ == interpolated(shares@.take(count as int)),
{
    let ghost points = shares@.take(count as int);
    let secret_len = shares[0].y.len();
    let mut result: Vec<u8> = Vec::new();
    let mut i: usize = 0;
    while i < secret_len
        invariant
            1 <= count <= shares@.len(),
            same_lengths(shares@),
            points == shares@.take(count as int),
            secret_len == shares@[0].y@.len(),
            i <= secret_len,
            result@.len() == i,
            forall|k: int|
                0 <= k < i ==> #[trigger] result@[k] == lagrange_at_zero(
                    xs_of(points),
                    ys_of(points, k),
                    count as int,
                ),
        decreases secret_len - i,
    {
        proof {
            assert forall|j: int| 0 <= j < count implies i < (#[trigger] shares@[j]).y@.len() by {
                assert(shares@[j].y@.len() == shares@[0].y@.len());
            }
        }
        let b = lagrange_interpolate_at_zero(shares, count, i);
        result.push(b.0);
        i += 1;
    }
    proof {
        assert(result@ =~= interpolated(points));
    }
    result
}

/// Recovers, by Lagrange interpolation at zero, one byte per y-position of the
/// shares; an empty list gives an empty result. All shares must carry equally
/// many y-values.
pub fn interpolate(shares: &[Share]) -> (r: Vec<u8>)
    requires
        same_lengths(shares@),
    ensures
        r@ == interpolated(shares@),
{
    if shares.len() == 0 {
        return Vec::new();
    }
    proof {
        assert(shares@.take(shares@.len() as int) =~= shares@);
    }
    interpolate_first(shares, shares.len())
}

/// Why a list of polynomials is unfit for sharing.
#[derive(Debug, Clone, Copy, PartialEq, Eq, Structural)]
pub enum PolynomialError {
    /// No polynomial was given.
    Empty,
    /// The polynomial at `index` has `degree` coefficients instead of `expected`.
    WrongDegree { index: usize, degree: usize, expected: usize },
    /// The polynomial at `index` has a zero leading coefficient.
    ZeroLeadingCoefficient { index: usize },
}

/// The first fault among the polynomials from position `from` on.
pub open spec fn polynomials_fault(polys: Seq<Seq<GF256>>, expected: u8, from: int) -> Option<
    PolynomialError,
>
    decreases polys.len() - from,
{
    if from < 0 || from >= polys.len() {
        None
    } else if polys[from].len() != expected as int {
        Some(
            PolynomialError::WrongDegree {
                index: from as usize,
                degree: polys[from].len() as usize,
                expected: expected as usize,
            },
        )
    } else if polys[from].len() > 1 && polys[from][0].0 == 0 {
        Some(PolynomialError::ZeroLeadingCoefficient { index: from as usize })
    } else {
        polynomials_fault(polys, expected, from + 1)
    }
}

/// Checks that there is at least one polynomial, that each has
/// `expected_threshold` coefficients, and that none of degree one or more has a
/// zero leading coefficient; reports the first fault in order.
pub fn validate_polynomials(polys: &[Vec<GF256>], expected_threshold: u8) -> (r: Result<
    (),
    PolynomialError,
>)
    ensures
        polys@.len() == 0 ==> r == Err::<(), PolynomialError>(PolynomialError::Empty),
        polys@.len() > 0 ==> r == match polynomials_fault(
            polys@.map_values(|p: Vec<GF256>| p@),
            expected_threshold,
            0,
        ) {
            Some(e) => Err(e),
            None => Ok(()),
        },
{
    let ghost view = polys@.map_values(|p: Vec<GF256>| p@);
    if polys.len() == 0 {
        return Err(PolynomialError::Empty);
    }
    let expected_degree = expected_threshold as usize;
    let mut i: usize = 0;
    while i < polys.len()
        invariant
            i <= polys@.len(),
            view == polys@.map_values(|p: Vec<GF256>| p@),
            expected_degree == expected_threshold as usize,
            polynomials_fault(view, expected_threshold, 0) == polynomials_fault(
                view,
                expected_threshold,
                i as int,
            ),
        decreases polys@.len() - i,
    {
        let poly = &polys[i];
        if poly.len() != expected_degree {
            return Err(
                PolynomialError::WrongDegree {
                    index: i,
                    degree: poly.len(),
                    expected: expected_degree,
                },
            );
        }
        if poly.len() > 1 && poly[0].is_zero() {
            return Err(PolynomialError::ZeroLeadingCoefficient { index: i });
        }
        i += 1;
    }
    Ok(())
}

/// Shares are determined by the polynomials: two evaluations at the same point
/// agree, so equal drawn coefficients give byte-identical shares.
pub proof fn lemma_shares_determined(polys: Seq<Seq<GF256>>, x: u8, a: Share, b: Share)
    requires
        is_evaluation(polys, x, a),
        is_evaluation(polys, x, b),
    ensures
        a.x == b.x,
        a.y@ == b.y@,
{
    assert(a.y@ =~= b.y@);
}

} // verus!
