//! Correctness of Lagrange interpolation over GF(256): interpolating the
//! values of a polynomial with at most n coefficients at n distinct points
//! gives its value at any point, in particular its constant term at zero.
use vstd::prelude::*;

use crate::poly::{basis_at_zero, eval_poly, lagrange_at_zero};
use crate::gf256::{
    GF256, gf_inv, gf_mul, lemma_gf_mul_associative, lemma_gf_mul_commutative,
    lemma_gf_mul_distributive, lemma_gf_mul_units, lemma_inverse_laws, lemma_inverse_unique,
};

verus! {

proof fn lemma_xor(a: u8, b: u8, c: u8, d: u8)
    by (bit_vector)
    ensures
        a ^ b == b ^ a,
        (a ^ b) ^ c == a ^ (b ^ c),
        a ^ 0 == a,
        0 ^ a == a,
        a ^ a == 0,
        (a ^ b) ^ (c ^ d) == (a ^ c) ^ (b ^ d),
        (a ^ b) ^ b == a,
        a != b ==> a ^ b != 0,
        (b ^ c) ^ (a ^ b) == a ^ c,
        (a ^ (b ^ c)) ^ (c ^ d) == (a ^ b) ^ d,
{
}

/// Commutativity, associativity, distributivity on both sides, and the units.
proof fn lemma_ring(a: u8, b: u8, c: u8)
    ensures
        gf_mul(a, b) == gf_mul(b, a),
        gf_mul(gf_mul(a, b), c) == gf_mul(a, gf_mul(b, c)),
        gf_mul(a, b ^ c) == gf_mul(a, b) ^ gf_mul(a, c),
        gf_mul(b ^ c, a) == gf_mul(b, a) ^ gf_mul(c, a),
        gf_mul(a, 1) == a,
        gf_mul(1, a) == a,
        gf_mul(a, 0) == 0,
        gf_mul(0, a) == 0,
{
    lemma_gf_mul_commutative(a, b);
    lemma_gf_mul_associative(a, b, c);
    lemma_gf_mul_distributive(a, b, c);
    lemma_gf_mul_commutative(a, b ^ c);
    lemma_gf_mul_commutative(a, c);
    lemma_gf_mul_units(a);
}

proof fn lemma_inv(a: u8)
    requires
        a != 0,
    ensures
        gf_mul(a, gf_inv(a)) == 1,
        gf_mul(gf_inv(a), a) == 1,
        gf_inv(a) != 0,
{
    lemma_inverse_laws(a);
    lemma_gf_mul_commutative(a, gf_inv(a));
}

proof fn lemma_nonzero_product(a: u8, b: u8)
    requires
        a != 0,
        b != 0,
    ensures
        gf_mul(a, b) != 0,
{
    lemma_inv(a);
    let ia = gf_inv(a);
    lemma_ring(ia, a, b);
    lemma_ring(b, 0, 0);
    lemma_ring(ia, 0, 0);
}

proof fn lemma_inv_one()
    ensures
        gf_inv(1) == 1,
{
    lemma_inv(1);
    lemma_gf_mul_units(1);
    lemma_inverse_unique(1, gf_inv(1), 1);
}

proof fn lemma_inv_product(a: u8, b: u8)
    requires
        a != 0,
        b != 0,
    ensures
        gf_inv(gf_mul(a, b)) == gf_mul(gf_inv(a), gf_inv(b)),
        gf_mul(a, b) != 0,
{
    lemma_inv(a);
    lemma_inv(b);
    lemma_nonzero_product(a, b);
    let ab = gf_mul(a, b);
    let ia = gf_inv(a);
    let ib = gf_inv(b);
    lemma_inv(ab);
    lemma_ring(a, b, gf_mul(ia, ib));
    lemma_ring(b, ia, ib);
    lemma_ring(ia, b, ib);
    lemma_ring(a, ia, 1);
    assert(gf_mul(ab, gf_mul(ia, ib)) == 1);
    lemma_inverse_unique(ab, gf_inv(ab), gf_mul(ia, ib));
}

/// `(n * b) / b == n` for nonzero `b`.
proof fn lemma_cancel(n: u8, b: u8)
    requires
        b != 0,
    ensures
        gf_mul(gf_mul(n, b), gf_inv(b)) == n,
{
    lemma_inv(b);
    lemma_ring(n, b, gf_inv(b));
    lemma_ring(n, 1, 1);
}

/// `(n / d) * (a / b) == (n * a) / (d * b)` for nonzero `d` and `b`.
proof fn lemma_fraction_product(n: u8, d: u8, a: u8, b: u8)
    requires
        d != 0,
        b != 0,
    ensures
        gf_mul(gf_mul(n, gf_inv(d)), gf_mul(a, gf_inv(b))) == gf_mul(
            gf_mul(n, a),
            gf_inv(gf_mul(d, b)),
        ),
{
    lemma_inv_product(d, b);
    let id = gf_inv(d);
    let ib = gf_inv(b);
    lemma_ring(n, id, gf_mul(a, ib));
    lemma_ring(id, a, ib);
    lemma_ring(a, id, ib);
    lemma_ring(a, id, 0);
    lemma_ring(n, a, gf_mul(id, ib));
}

/// The product of `z - xs[m]` over the points `m < e` other than `j`.
pub open spec fn num_prod(xs: Seq<u8>, j: int, z: u8, e: int) -> u8
    decreases e,
{
    if e <= 0 {
        1
    } else if e - 1 == j {
        num_prod(xs, j, z, e - 1)
    } else {
        gf_mul(num_prod(xs, j, z, e - 1), z ^ xs[e - 1])
    }
}

/// The product of `z - xs[m]` over the points `m < e`.
pub open spec fn full_prod(xs: Seq<u8>, z: u8, e: int) -> u8
    decreases e,
{
    if e <= 0 {
        1
    } else {
        gf_mul(full_prod(xs, z, e - 1), z ^ xs[e - 1])
    }
}

/// The Lagrange basis polynomial of point `j` of `xs`, evaluated at `z`.
pub open spec fn basis(xs: Seq<u8>, j: int, z: u8) -> u8 {
    gf_mul(num_prod(xs, j, z, xs.len() as int), gf_inv(num_prod(xs, j, xs[j], xs.len() as int)))
}

/// The sum of the basis polynomials of the points before `e`, at `z`.
pub open spec fn basis_sum(xs: Seq<u8>, z: u8, e: int) -> u8
    decreases e,
{
    if e <= 0 {
        0
    } else {
        basis_sum(xs, z, e - 1) ^ basis(xs, e - 1, z)
    }
}

/// The interpolant of the points `(xs[j], ys[j])`, `j < e`, evaluated at `z`.
pub open spec fn interp(xs: Seq<u8>, ys: Seq<u8>, z: u8, e: int) -> u8
    decreases e,
{
    if e <= 0 {
        0
    } else {
        interp(xs, ys, z, e - 1) ^ gf_mul(basis(xs, e - 1, z), ys[e - 1])
    }
}

/// The points are pairwise distinct.
pub open spec fn distinct_points(xs: Seq<u8>) -> bool {
    forall|a: int, b: int| 0 <= a < xs.len() && 0 <= b < xs.len() && a != b ==> xs[a] != xs[b]
}

proof fn lemma_prod_prefix(xs: Seq<u8>, ys: Seq<u8>, j: int, z: u8, e: int)
    requires
        0 <= e <= xs.len(),
        e <= ys.len(),
        forall|m: int| 0 <= m < e ==> xs[m] == ys[m],
    ensures
        num_prod(xs, j, z, e) == num_prod(ys, j, z, e),
        full_prod(xs, z, e) == full_prod(ys, z, e),
    decreases e,
{
    if e > 0 {
        lemma_prod_prefix(xs, ys, j, z, e - 1);
    }
}

proof fn lemma_num_below(xs: Seq<u8>, j: int, z: u8, e: int)
    requires
        0 <= e <= j + 1,
    ensures
        num_prod(xs, j, z, e) == full_prod(xs, z, if e == j + 1 { j } else { e }),
    decreases e,
{
    if e > 0 {
        lemma_num_below(xs, j, z, e - 1);
    }
}

/// The full product is the product without point `j` times its own factor.
proof fn lemma_full_split(xs: Seq<u8>, j: int, z: u8, e: int)
    requires
        0 <= j < e <= xs.len(),
    ensures
        full_prod(xs, z, e) == gf_mul(num_prod(xs, j, z, e), z ^ xs[j]),
    decreases e,
{
    if e == j + 1 {
        lemma_num_below(xs, j, z, e);
    } else {
        lemma_full_split(xs, j, z, e - 1);
        let n = num_prod(xs, j, z, e - 1);
        lemma_ring(n, z ^ xs[j], z ^ xs[e - 1]);
        lemma_ring(n, z ^ xs[e - 1], z ^ xs[j]);
        lemma_ring(z ^ xs[j], z ^ xs[e - 1], 0);
    }
}

/// A product of differences to points other than `z` is nonzero.
proof fn lemma_prod_nonzero(xs: Seq<u8>, j: int, z: u8, e: int)
    requires
        0 <= e <= xs.len(),
        forall|m: int| 0 <= m < e && m != j ==> xs[m] != z,
    ensures
        num_prod(xs, j, z, e) != 0,
    decreases e,
{
    if e > 0 {
        lemma_prod_nonzero(xs, j, z, e - 1);
        if e - 1 != j {
            lemma_xor(z, xs[e - 1], 0, 0);
            lemma_nonzero_product(num_prod(xs, j, z, e - 1), z ^ xs[e - 1]);
        }
    }
}

proof fn lemma_full_nonzero(xs: Seq<u8>, z: u8, e: int)
    requires
        0 <= e <= xs.len(),
        forall|m: int| 0 <= m < e ==> xs[m] != z,
    ensures
        full_prod(xs, z, e) != 0,
    decreases e,
{
    if e > 0 {
        lemma_full_nonzero(xs, z, e - 1);
        lemma_xor(z, xs[e - 1], 0, 0);
        lemma_nonzero_product(full_prod(xs, z, e - 1), z ^ xs[e - 1]);
    }
}

/// `(n * a) / (d * b) = n / d + (h / g) * (m / d)` where `a = b + c`,
/// `h = n * c` and `g = m * b`.
proof fn lemma_split_fraction(n: u8, d: u8, m: u8, h: u8, g: u8, a: u8, b: u8, c: u8)
    requires
        d != 0,
        b != 0,
        m != 0,
        a == b ^ c,
        h == gf_mul(n, c),
        g == gf_mul(m, b),
    ensures
        gf_mul(gf_mul(n, a), gf_inv(gf_mul(d, b))) == gf_mul(n, gf_inv(d)) ^ gf_mul(
            gf_mul(h, gf_inv(g)),
            gf_mul(m, gf_inv(d)),
        ),
{
    lemma_inv_product(d, b);
    let id = gf_inv(d);
    let idb = gf_inv(gf_mul(d, b));
    lemma_ring(n, b, c);
    lemma_ring(idb, gf_mul(n, b), gf_mul(n, c));
    lemma_fraction_product(n, d, b, b);
    lemma_inv(b);
    lemma_ring(gf_mul(n, id), 1, 1);
    assert(gf_mul(gf_mul(n, b), idb) == gf_mul(n, id));
    assert(gf_mul(gf_mul(n, a), idb) == gf_mul(n, id) ^ gf_mul(h, idb));
    lemma_nonzero_product(m, b);
    lemma_fraction_product(h, g, m, d);
    lemma_ring(m, b, d);
    lemma_ring(b, d, 0);
    assert(gf_mul(g, d) == gf_mul(m, gf_mul(d, b)));
    lemma_inv_product(m, gf_mul(d, b));
    lemma_ring(gf_mul(h, m), gf_inv(m), idb);
    lemma_cancel(h, m);
}

/// `((n * a) / (d * b)) * b = (n / d) * a`.
proof fn lemma_scaled_fraction(n: u8, d: u8, a: u8, b: u8)
    requires
        d != 0,
        b != 0,
    ensures
        gf_mul(gf_mul(gf_mul(n, a), gf_inv(gf_mul(d, b))), b) == gf_mul(gf_mul(n, gf_inv(d)), a),
{
    lemma_inv_product(d, b);
    let id = gf_inv(d);
    let ib = gf_inv(b);
    lemma_inv(b);
    lemma_ring(gf_mul(n, a), gf_mul(id, ib), b);
    lemma_ring(id, ib, b);
    lemma_ring(gf_mul(n, a), id, 1);
    lemma_ring(ib, b, 0);
    lemma_ring(id, 1, 1);
    lemma_ring(n, a, id);
    lemma_ring(n, id, a);
    lemma_ring(a, id, 0);
}

/// Removing the last point `r`: for an earlier point `j`, with `a = z - r`
/// and `b = x_j - r`, the basis polynomial at `z` splits into the basis of the
/// smaller point set at `z` plus a multiple of its basis at `r`, and `b` times
/// it is `a` times the smaller basis.
proof fn lemma_basis_drop_last(xs: Seq<u8>, j: int, z: u8)
    requires
        xs.len() >= 2,
        distinct_points(xs),
        0 <= j < xs.len() - 1,
    ensures
        ({
            let n1 = xs.len() - 1;
            let small = xs.drop_last();
            let r = xs[n1];
            let q = gf_mul(full_prod(small, z, n1), gf_inv(full_prod(small, r, n1)));
            &&& basis(xs, j, z) == basis(small, j, z) ^ gf_mul(q, basis(small, j, r))
            &&& gf_mul(basis(xs, j, z), xs[j] ^ r) == gf_mul(basis(small, j, z), z ^ r)
        }),
{
    let n = xs.len() as int;
    let n1 = n - 1;
    let small = xs.drop_last();
    let r = xs[n1];
    let xj = xs[j];
    assert(small[j] == xj);
    assert forall|m: int| 0 <= m < n1 implies xs[m] == small[m] by {}
    lemma_prod_prefix(xs, small, j, z, n1);
    lemma_prod_prefix(xs, small, j, xj, n1);
    let nz = num_prod(small, j, z, n1);
    let d = num_prod(small, j, xj, n1);
    let nr = num_prod(small, j, r, n1);
    let a = z ^ r;
    let b = xj ^ r;
    let c = z ^ xj;
    assert(num_prod(xs, j, z, n) == gf_mul(nz, a));
    assert(num_prod(xs, j, xj, n) == gf_mul(d, b));
    assert(xj != r);
    lemma_xor(xj, r, 0, 0);
    lemma_xor(z, xj, r, 0);
    assert forall|m: int| 0 <= m < n1 && m != j implies small[m] != xj by {
        assert(xs[m] != xs[j]);
    }
    assert forall|m: int| 0 <= m < n1 && m != j implies small[m] != r by {
        assert(xs[m] != xs[n1]);
    }
    assert forall|m: int| 0 <= m < n1 implies small[m] != r by {
        assert(xs[m] != xs[n1]);
    }
    lemma_prod_nonzero(small, j, xj, n1);
    lemma_prod_nonzero(small, j, r, n1);
    lemma_full_split(small, j, z, n1);
    lemma_full_split(small, j, r, n1);
    lemma_xor(r, xj, 0, 0);
    lemma_split_fraction(nz, d, nr, full_prod(small, z, n1), full_prod(small, r, n1), a, b, c);
    lemma_scaled_fraction(nz, d, a, b);
}

/// The basis polynomial of the last point, at `z`.
proof fn lemma_basis_last(xs: Seq<u8>, z: u8)
    requires
        xs.len() >= 1,
    ensures
        ({
            let n1 = xs.len() - 1;
            let small = xs.drop_last();
            basis(xs, n1, z) == gf_mul(full_prod(small, z, n1), gf_inv(full_prod(small, xs[n1], n1)))
        }),
{
    let n1 = xs.len() - 1;
    let small = xs.drop_last();
    lemma_num_below(xs, n1, z, n1);
    lemma_num_below(xs, n1, xs[n1], n1);
    assert forall|m: int| 0 <= m < n1 implies xs[m] == small[m] by {}
    lemma_prod_prefix(xs, small, n1, z, n1);
    lemma_prod_prefix(xs, small, n1, xs[n1], n1);
}

proof fn lemma_single_basis(xs: Seq<u8>, z: u8)
    requires
        xs.len() == 1,
    ensures
        basis(xs, 0, z) == 1,
{
    assert(num_prod(xs, 0, z, 1) == num_prod(xs, 0, z, 0));
    assert(num_prod(xs, 0, xs[0], 1) == num_prod(xs, 0, xs[0], 0));
    lemma_inv_one();
    lemma_ring(1, 1, 1);
}

/// The basis polynomials of distinct points sum to 1 everywhere.
pub proof fn lemma_partition_of_unity(xs: Seq<u8>, z: u8)
    requires
        xs.len() >= 1,
        distinct_points(xs),
    ensures
        basis_sum(xs, z, xs.len() as int) == 1,
    decreases xs.len(),
{
    let n = xs.len() as int;
    if n == 1 {
        lemma_single_basis(xs, z);
        assert(basis_sum(xs, z, 0) == 0);
        lemma_xor(1, 0, 0, 0);
    } else {
        let n1 = n - 1;
        let small = xs.drop_last();
        let r = xs[n1];
        assert(distinct_points(small));
        lemma_partition_of_unity(small, z);
        lemma_partition_of_unity(small, r);
        let q = gf_mul(full_prod(small, z, n1), gf_inv(full_prod(small, r, n1)));
        lemma_partition_split(xs, z, n1);
        lemma_basis_last(xs, z);
        lemma_ring(q, 1, 1);
        lemma_xor(1, q, 0, 0);
        lemma_xor(q, 1, q, 0);
    }
}

/// For a prefix of the earlier points, the basis sum splits as in `lemma_basis_drop_last`.
proof fn lemma_partition_split(xs: Seq<u8>, z: u8, e: int)
    requires
        xs.len() >= 2,
        distinct_points(xs),
        0 <= e <= xs.len() - 1,
    ensures
        ({
            let n1 = xs.len() - 1;
            let small = xs.drop_last();
            let r = xs[n1];
            let q = gf_mul(full_prod(small, z, n1), gf_inv(full_prod(small, r, n1)));
            basis_sum(xs, z, e) == basis_sum(small, z, e) ^ gf_mul(q, basis_sum(small, r, e))
        }),
    decreases e,
{
    let n1 = xs.len() - 1;
    let small = xs.drop_last();
    let r = xs[n1];
    let q = gf_mul(full_prod(small, z, n1), gf_inv(full_prod(small, r, n1)));
    if e == 0 {
        lemma_ring(q, 0, 0);
        lemma_xor(0, 0, 0, 0);
    } else {
        lemma_partition_split(xs, z, e - 1);
        lemma_basis_drop_last(xs, e - 1, z);
        let sz = basis_sum(small, z, e - 1);
        let sr = basis_sum(small, r, e - 1);
        let bz = basis(small, e - 1, z);
        let br = basis(small, e - 1, r);
        lemma_ring(q, sr, br);
        lemma_xor(sz, gf_mul(q, sr), bz, gf_mul(q, br));
    }
}

/// The quotient of dividing a polynomial (descending coefficients) by `t - r`.
pub open spec fn quotient(c: Seq<GF256>, r: u8) -> Seq<GF256>
    decreases c.len(),
{
    if c.len() <= 1 {
        seq![]
    } else {
        quotient(c.drop_last(), r).push(GF256(eval_poly(c.drop_last(), r)))
    }
}

/// Division by `t - r`: `c(t) = (t - r) * quotient(t) + c(r)`.
pub proof fn lemma_division(c: Seq<GF256>, r: u8, t: u8)
    ensures
        eval_poly(c, t) == gf_mul(t ^ r, eval_poly(quotient(c, r), t)) ^ eval_poly(c, r),
        quotient(c, r).len() == if c.len() == 0 { 0 } else { c.len() - 1 },
    decreases c.len(),
{
    lemma_ring(t ^ r, 0, 0);
    if c.len() == 0 {
        lemma_xor(0, 0, 0, 0);
        assert(eval_poly(quotient(c, r), t) == 0);
    } else if c.len() == 1 {
        let a = c.last().0;
        assert(eval_poly(c.drop_last(), t) == 0);
        assert(eval_poly(c.drop_last(), r) == 0);
        lemma_ring(t, 0, 0);
        lemma_ring(r, 0, 0);
        lemma_xor(a, 0, 0, 0);
        assert(eval_poly(c, t) == a);
        assert(eval_poly(c, r) == a);
        assert(quotient(c, r) =~= seq![]);
        assert(eval_poly(quotient(c, r), t) == 0);
    } else {
        let c1 = c.drop_last();
        let a = c.last().0;
        lemma_division(c1, r, t);
        let q1 = quotient(c1, r);
        let e1 = eval_poly(c1, r);
        let big = eval_poly(q1, t);
        let q = quotient(c, r);
        assert(q.drop_last() =~= q1);
        assert(eval_poly(q, t) == gf_mul(big, t) ^ e1);
        let u = gf_mul(gf_mul(t ^ r, big), t);
        lemma_ring(t ^ r, big, t);
        lemma_ring(t ^ r, gf_mul(big, t), e1);
        lemma_ring(e1, t, r);
        lemma_ring(t, e1, 0);
        lemma_ring(r, e1, 0);
        lemma_ring(t, gf_mul(t ^ r, big), e1);
        lemma_xor(u, gf_mul(t, e1), gf_mul(r, e1), a);
    }
}

proof fn lemma_eval_at_zero(c: Seq<GF256>)
    requires
        c.len() >= 1,
    ensures
        eval_poly(c, 0) == c.last().0,
{
    lemma_ring(eval_poly(c.drop_last(), 0), 0, 0);
    lemma_xor(c.last().0, 0, 0, 0);
}

proof fn lemma_eval_constant(c: Seq<GF256>, t: u8, z: u8)
    requires
        c.len() <= 1,
    ensures
        eval_poly(c, t) == eval_poly(c, z),
{
    if c.len() == 1 {
        assert(eval_poly(c.drop_last(), t) == 0);
        assert(eval_poly(c.drop_last(), z) == 0);
        lemma_ring(t, 0, 0);
        lemma_ring(z, 0, 0);
    }
}

proof fn lemma_term_algebra(bz: u8, bs: u8, a: u8, b: u8, sj: u8, ev: u8)
    requires
        gf_mul(bz, b) == gf_mul(bs, a),
    ensures
        gf_mul(bz, gf_mul(b, sj) ^ ev) == gf_mul(a, gf_mul(bs, sj)) ^ gf_mul(ev, bz),
{
    lemma_ring(bz, gf_mul(b, sj), ev);
    lemma_ring(bz, b, sj);
    lemma_ring(bs, a, sj);
    lemma_ring(a, bs, sj);
    lemma_ring(bz, ev, 0);
}

proof fn lemma_sum_algebra(a: u8, ev: u8, i1: u8, s1: u8, t1: u8, bz: u8)
    ensures
        (gf_mul(a, i1) ^ gf_mul(ev, s1)) ^ (gf_mul(a, t1) ^ gf_mul(ev, bz)) == gf_mul(a, i1 ^ t1)
            ^ gf_mul(ev, s1 ^ bz),
{
    lemma_ring(a, i1, t1);
    lemma_ring(ev, s1, bz);
    lemma_xor(gf_mul(a, i1), gf_mul(ev, s1), gf_mul(a, t1), gf_mul(ev, bz));
}

/// Interpolation over the earlier points splits after dividing by the last one.
proof fn lemma_interp_split(xs: Seq<u8>, ys: Seq<u8>, c: Seq<GF256>, z: u8, e: int)
    requires
        xs.len() >= 2,
        distinct_points(xs),
        ys.len() == xs.len(),
        forall|j: int| 0 <= j < xs.len() ==> ys[j] == eval_poly(c, #[trigger] xs[j]),
        0 <= e <= xs.len() - 1,
    ensures
        ({
            let n1 = xs.len() - 1;
            let small = xs.drop_last();
            let r = xs[n1];
            let s = quotient(c, r);
            let small_ys = Seq::new(n1 as nat, |j: int| eval_poly(s, xs[j]));
            interp(xs, ys, z, e) == gf_mul(z ^ r, interp(small, small_ys, z, e)) ^ gf_mul(
                eval_poly(c, r),
                basis_sum(xs, z, e),
            )
        }),
    decreases e,
{
    let n1 = xs.len() - 1;
    let small = xs.drop_last();
    let r = xs[n1];
    let s = quotient(c, r);
    let small_ys = Seq::new(n1 as nat, |j: int| eval_poly(s, xs[j]));
    let ev = eval_poly(c, r);
    let a = z ^ r;
    if e == 0 {
        lemma_ring(a, 0, 0);
        lemma_ring(ev, 0, 0);
        lemma_xor(0, 0, 0, 0);
    } else {
        lemma_interp_split(xs, ys, c, z, e - 1);
        let j = e - 1;
        let xj = xs[j];
        let b = xj ^ r;
        let sj = eval_poly(s, xj);
        let bz = basis(xs, j, z);
        let bs = basis(small, j, z);
        lemma_basis_drop_last(xs, j, z);
        lemma_division(c, r, xj);
        assert(ys[j] == gf_mul(b, sj) ^ ev);
        assert(small_ys[j] == sj);
        lemma_term_algebra(bz, bs, a, b, sj, ev);
        let i1 = interp(small, small_ys, z, j);
        let s1 = basis_sum(xs, z, j);
        let t1 = gf_mul(bs, sj);
        lemma_sum_algebra(a, ev, i1, s1, t1, bz);
        assert(interp(small, small_ys, z, e) == i1 ^ t1);
        assert(basis_sum(xs, z, e) == s1 ^ bz);
        assert(interp(xs, ys, z, e) == interp(xs, ys, z, j) ^ gf_mul(bz, ys[j]));
    }
}

/// Interpolating the values of a polynomial with at most n coefficients at n
/// distinct points gives its value at every point.
pub proof fn lemma_interpolation_exact(xs: Seq<u8>, ys: Seq<u8>, c: Seq<GF256>, z: u8)
    requires
        xs.len() >= 1,
        distinct_points(xs),
        c.len() <= xs.len(),
        ys.len() == xs.len(),
        forall|j: int| 0 <= j < xs.len() ==> ys[j] == eval_poly(c, #[trigger] xs[j]),
    ensures
        interp(xs, ys, z, xs.len() as int) == eval_poly(c, z),
    decreases xs.len(),
{
    let n = xs.len() as int;
    if n == 1 {
        lemma_single_basis(xs, z);
        assert(ys[0] == eval_poly(c, xs[0]));
        lemma_eval_constant(c, xs[0], z);
        lemma_ring(ys[0], 0, 0);
        lemma_xor(ys[0], 0, 0, 0);
        assert(interp(xs, ys, z, 0) == 0);
    } else {
        let n1 = n - 1;
        let small = xs.drop_last();
        let r = xs[n1];
        let s = quotient(c, r);
        let small_ys = Seq::new(n1 as nat, |j: int| eval_poly(s, xs[j]));
        let ev = eval_poly(c, r);
        lemma_division(c, r, z);
        assert(distinct_points(small));
        assert forall|j: int| 0 <= j < small.len() implies small_ys[j] == eval_poly(
            s,
            #[trigger] small[j],
        ) by {}
        lemma_interpolation_exact(small, small_ys, s, z);
        lemma_interp_split(xs, ys, c, z, n1);
        lemma_partition_of_unity(xs, z);
        let bl = basis(xs, n1, z);
        assert(ys[n1] == ev);
        let s1 = basis_sum(xs, z, n1);
        lemma_ring(ev, s1, bl);
        lemma_ring(bl, ev, 0);
        lemma_ring(ev, 1, 1);
        lemma_xor(gf_mul(z ^ r, eval_poly(s, z)), gf_mul(ev, s1), gf_mul(ev, bl), 0);
    }
}

/// The basis that recovery computes at zero, as a left fold over the points,
/// is the basis polynomial at zero.
proof fn lemma_basis_at_zero_is_basis(xs: Seq<u8>, j: int, e: int)
    requires
        distinct_points(xs),
        0 <= j < xs.len(),
        0 <= e <= xs.len(),
    ensures
        basis_at_zero(xs, j, e) == gf_mul(num_prod(xs, j, 0, e), gf_inv(num_prod(xs, j, xs[j], e))),
    decreases e,
{
    if e == 0 {
        lemma_inv_one();
        lemma_ring(1, 1, 1);
    } else {
        lemma_basis_at_zero_is_basis(xs, j, e - 1);
        let m = e - 1;
        if m != j {
            let xm = xs[m];
            let xj = xs[j];
            assert(xm != xj);
            lemma_xor(xm, 0, 0, 0);
            lemma_xor(xj, xm, 0, 0);
            assert forall|k: int| 0 <= k < m && k != j implies xs[k] != xj by {
                assert(xs[k] != xs[j]);
            }
            lemma_prod_nonzero(xs, j, xj, m);
            lemma_fraction_product(num_prod(xs, j, 0, m), num_prod(xs, j, xj, m), xm, xj ^ xm);
        }
    }
}

/// Recovery's interpolation at zero is the interpolant evaluated at zero.
pub proof fn lemma_lagrange_is_interp(xs: Seq<u8>, ys: Seq<u8>, e: int)
    requires
        distinct_points(xs),
        0 <= e <= xs.len(),
        ys.len() == xs.len(),
    ensures
        lagrange_at_zero(xs, ys, e) == interp(xs, ys, 0, e),
    decreases e,
{
    if e > 0 {
        lemma_lagrange_is_interp(xs, ys, e - 1);
        lemma_basis_at_zero_is_basis(xs, e - 1, xs.len() as int);
    }
}

/// Recovery at zero from n distinct points of a polynomial with n coefficients
/// gives its constant term.
pub proof fn lemma_lagrange_recovers_constant(xs: Seq<u8>, ys: Seq<u8>, c: Seq<GF256>)
    requires
        xs.len() >= 1,
        distinct_points(xs),
        c.len() == xs.len(),
        ys.len() == xs.len(),
        forall|j: int| 0 <= j < xs.len() ==> ys[j] == eval_poly(c, #[trigger] xs[j]),
    ensures
        lagrange_at_zero(xs, ys, xs.len() as int) == c.last().0,
{
    lemma_lagrange_is_interp(xs, ys, xs.len() as int);
    lemma_interpolation_exact(xs, ys, c, 0);
    lemma_eval_at_zero(c);
}

proof fn lemma_interp_of_zeros(xs: Seq<u8>, ys: Seq<u8>, z: u8, e: int)
    requires
        0 <= e <= ys.len(),
        forall|j: int| 0 <= j < ys.len() ==> ys[j] == 0,
    ensures
        interp(xs, ys, z, e) == 0,
    decreases e,
{
    if e > 0 {
        lemma_interp_of_zeros(xs, ys, z, e - 1);
        lemma_ring(basis(xs, e - 1, z), 0, 0);
        lemma_xor(0, 0, 0, 0);
    }
}

/// The coefficientwise sum of two polynomials of equal length.
pub open spec fn poly_sum(c: Seq<GF256>, d: Seq<GF256>) -> Seq<GF256> {
    Seq::new(c.len(), |i: int| GF256(c[i].0 ^ d[i].0))
}

proof fn lemma_eval_sum(c: Seq<GF256>, d: Seq<GF256>, t: u8)
    requires
        c.len() == d.len(),
    ensures
        eval_poly(poly_sum(c, d), t) == eval_poly(c, t) ^ eval_poly(d, t),
    decreases c.len(),
{
    if c.len() == 0 {
        lemma_xor(0, 0, 0, 0);
    } else {
        let s = poly_sum(c, d);
        assert(s.drop_last() =~= poly_sum(c.drop_last(), d.drop_last()));
        lemma_eval_sum(c.drop_last(), d.drop_last(), t);
        let e1 = eval_poly(c.drop_last(), t);
        let e2 = eval_poly(d.drop_last(), t);
        lemma_ring(t, e1, e2);
        lemma_xor(gf_mul(e1, t), gf_mul(e2, t), c.last().0, d.last().0);
    }
}

/// The points 1, 2, ..., n.
pub open spec fn first_points(n: nat) -> Seq<u8> {
    Seq::new(n, |j: int| (j + 1) as u8)
}

/// A polynomial with at most 255 coefficients that vanishes at every nonzero
/// point has only zero coefficients.
proof fn lemma_vanishing_is_zero(c: Seq<GF256>)
    requires
        c.len() <= 255,
        forall|z: u8| z != 0 ==> #[trigger] eval_poly(c, z) == 0,
    ensures
        forall|i: int| 0 <= i < c.len() ==> (#[trigger] c[i]).0 == 0,
    decreases c.len(),
{
    let n = c.len();
    if n > 0 {
        let xs = first_points(n);
        assert(distinct_points(xs));
        let ys = Seq::new(n, |j: int| eval_poly(c, xs[j]));
        assert forall|j: int| 0 <= j < xs.len() implies ys[j] == eval_poly(c, #[trigger] xs[j]) by {}
        assert forall|j: int| 0 <= j < ys.len() implies ys[j] == 0 by {
            assert(xs[j] != 0);
        }
        lemma_interpolation_exact(xs, ys, c, 0);
        lemma_interp_of_zeros(xs, ys, 0, n as int);
        lemma_eval_at_zero(c);
        let rest = c.drop_last();
        assert forall|z: u8| z != 0 implies #[trigger] eval_poly(rest, z) == 0 by {
            assert(eval_poly(c, z) == 0);
            lemma_xor(gf_mul(eval_poly(rest, z), z), 0, 0, 0);
            if eval_poly(rest, z) != 0 {
                lemma_nonzero_product(eval_poly(rest, z), z);
            }
        }
        lemma_vanishing_is_zero(rest);
        assert forall|i: int| 0 <= i < c.len() implies (#[trigger] c[i]).0 == 0 by {
            if i < n - 1 {
                assert(c[i] == rest[i]);
            }
        }
    }
}

/// Two polynomials with n coefficients (n at most 255) that agree at n
/// distinct points are equal.
pub proof fn lemma_interpolation_unique(xs: Seq<u8>, c: Seq<GF256>, d: Seq<GF256>)
    requires
        xs.len() >= 1,
        distinct_points(xs),
        c.len() == xs.len(),
        d.len() == xs.len(),
        xs.len() <= 255,
        forall|j: int| 0 <= j < xs.len() ==> eval_poly(c, #[trigger] xs[j]) == eval_poly(d, xs[j]),
    ensures
        c == d,
{
    let ys = Seq::new(xs.len(), |j: int| eval_poly(c, xs[j]));
    let s = poly_sum(c, d);
    assert forall|z: u8| z != 0 implies #[trigger] eval_poly(s, z) == 0 by {
        lemma_interpolation_exact(xs, ys, c, z);
        lemma_interpolation_exact(xs, ys, d, z);
        lemma_eval_sum(c, d, z);
        lemma_xor(eval_poly(c, z), 0, 0, 0);
    }
    lemma_vanishing_is_zero(s);
    assert forall|i: int| 0 <= i < c.len() implies c[i] == d[i] by {
        assert(s[i].0 == 0);
        lemma_xor(c[i].0, d[i].0, 0, 0);
        assert((c[i].0 ^ d[i].0) ^ d[i].0 == c[i].0);
        lemma_xor(0, d[i].0, 0, 0);
    }
    assert(c =~= d);
}

/// Changing one value by `m` changes the interpolant by `m` times that point's basis.
proof fn lemma_interp_change(xs: Seq<u8>, ys: Seq<u8>, j: int, m: u8, z: u8, e: int)
    requires
        0 <= j < ys.len(),
        0 <= e <= ys.len(),
    ensures
        interp(xs, ys.update(j, ys[j] ^ m), z, e) == interp(xs, ys, z, e) ^ (if j < e {
            gf_mul(basis(xs, j, z), m)
        } else {
            0
        }),
    decreases e,
{
    let zs = ys.update(j, ys[j] ^ m);
    if e == 0 {
        lemma_xor(0, 0, 0, 0);
    } else {
        lemma_interp_change(xs, ys, j, m, z, e - 1);
        let b = basis(xs, e - 1, z);
        let p = interp(xs, ys, z, e - 1);
        let t = gf_mul(b, ys[e - 1]);
        assert(interp(xs, zs, z, e) == interp(xs, zs, z, e - 1) ^ gf_mul(b, zs[e - 1]));
        assert(interp(xs, ys, z, e) == p ^ t);
        if e - 1 == j {
            let c = gf_mul(b, m);
            lemma_ring(b, ys[j], m);
            lemma_xor(p, 0, 0, 0);
            assert(interp(xs, zs, z, e - 1) == p);
            assert(gf_mul(b, zs[e - 1]) == t ^ c);
            lemma_xor3(p, t, c);
        } else if j < e - 1 {
            let c = gf_mul(basis(xs, j, z), m);
            assert(interp(xs, zs, z, e - 1) == p ^ c);
            assert(zs[e - 1] == ys[e - 1]);
            lemma_xor3(p, c, t);
        } else {
            lemma_xor(p, 0, 0, 0);
            lemma_xor(p ^ t, 0, 0, 0);
            assert(interp(xs, zs, z, e - 1) == p);
            assert(zs[e - 1] == ys[e - 1]);
        }
    }
}

proof fn lemma_xor3(a: u8, b: u8, c: u8)
    by (bit_vector)
    ensures
        (a ^ b) ^ c == (a ^ c) ^ b,
        a ^ (b ^ c) == (a ^ b) ^ c,
{
}

proof fn lemma_xor_changes(a: u8, c: u8)
    by (bit_vector)
    requires
        c != 0,
    ensures
        a ^ c != a,
{
}

/// At distinct nonzero points, changing one value by a nonzero `m` changes
/// the interpolation at zero.
pub proof fn lemma_lagrange_sensitive(xs: Seq<u8>, ys: Seq<u8>, j: int, m: u8)
    requires
        distinct_points(xs),
        forall|a: int| 0 <= a < xs.len() ==> xs[a] != 0,
        ys.len() == xs.len(),
        0 <= j < xs.len(),
        m != 0,
    ensures
        lagrange_at_zero(xs, ys.update(j, ys[j] ^ m), xs.len() as int) != lagrange_at_zero(
            xs,
            ys,
            xs.len() as int,
        ),
{
    let n = xs.len() as int;
    let zs = ys.update(j, ys[j] ^ m);
    lemma_lagrange_is_interp(xs, ys, n);
    lemma_lagrange_is_interp(xs, zs, n);
    lemma_interp_change(xs, ys, j, m, 0, n);
    assert forall|a: int| 0 <= a < n && a != j implies xs[a] != 0 by {}
    lemma_prod_nonzero(xs, j, 0, n);
    assert forall|a: int| 0 <= a < n && a != j implies xs[a] != xs[j] by {}
    lemma_prod_nonzero(xs, j, xs[j], n);
    lemma_inv(num_prod(xs, j, xs[j], n));
    lemma_nonzero_product(num_prod(xs, j, 0, n), gf_inv(num_prod(xs, j, xs[j], n)));
    lemma_nonzero_product(basis(xs, j, 0), m);
    lemma_xor_changes(interp(xs, ys, 0, n), gf_mul(basis(xs, j, 0), m));
}

} // verus!
