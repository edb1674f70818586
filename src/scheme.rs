//! Splitting a secret into shares and recovering it, with a CRC-32 checksum
//! of the secret shared along with it.
use vstd::prelude::*;

use crate::gf256::GF256;
use crate::inspect::{first_length_mismatch, first_repeat};
use crate::lagrange::{
    distinct_points, first_points, lemma_interpolation_unique, lemma_lagrange_recovers_constant,
    lemma_lagrange_sensitive,
};
use crate::poly::{
    eval_poly, evaluator, interpolate_first, lemma_shares_determined, interpolated, is_evaluation, is_sharing_polynomial,
    polynomial_from_range, polynomial_of, same_lengths, xs_of, ys_of, Evaluator,
};
use crate::share::Share;

verus! {

/// Errors of splitting and recovery.
#[derive(Debug, Clone, Copy, PartialEq, Eq, Structural)]
pub enum ShamirError {
    /// The threshold is 0.
    InvalidThreshold,
    /// Fewer shares than the threshold were given.
    InsufficientShares { required: u8, provided: usize },
    /// The shares disagree on the number of y-values.
    InconsistentShareLength,
    /// Two shares have this x-coordinate.
    DuplicateShares(u8),
    /// The recovered bytes fail the integrity check.
    ChecksumMismatch,
    /// The secret is empty.
    EmptyInput,
}

/// The CRC-32 checksum of a byte sequence.
pub uninterp spec fn crc32_of(data: Seq<u8>) -> u32;

/// Relies on `crc32fast::hash`: the CRC-32 of the bytes, a function of them alone.
#[verifier::external_body]
fn crc32(data: &[u8]) -> (r: u32)
    ensures
        r == crc32_of(data@),
{
    crc32fast::hash(data)
}

/// The four big-endian bytes of a 32-bit value.
pub open spec fn be_bytes(v: u32) -> Seq<u8> {
    seq![(v >> 24u32) as u8, (v >> 16u32) as u8, (v >> 8u32) as u8, v as u8]
}

proof fn lemma_be_bytes_bits(v: u32, b0: u8, b1: u8, b2: u8, b3: u8, w: u32)
    by (bit_vector)
    requires
        b0 == (v >> 24u32) as u8,
        b1 == (v >> 16u32) as u8,
        b2 == (v >> 8u32) as u8,
        b3 == v as u8,
        w == ((b0 as u32) << 24u32) | ((b1 as u32) << 16u32) | ((b2 as u32) << 8u32) | (b3 as u32),
    ensures
        w == v,
{
}

proof fn lemma_be_value_bits(b0: u8, b1: u8, b2: u8, b3: u8, w: u32)
    by (bit_vector)
    requires
        w == ((b0 as u32) << 24u32) | ((b1 as u32) << 16u32) | ((b2 as u32) << 8u32) | (b3 as u32),
    ensures
        b0 == (w >> 24u32) as u8,
        b1 == (w >> 16u32) as u8,
        b2 == (w >> 8u32) as u8,
        b3 == w as u8,
{
}

/// The big-endian encoding is injective.
proof fn lemma_be_bytes_injective(v: u32, w: u32)
    requires
        be_bytes(v) == be_bytes(w),
    ensures
        v == w,
{
    let bv = be_bytes(v);
    let bw = be_bytes(w);
    assert(bv[0] == bw[0] && bv[1] == bw[1] && bv[2] == bw[2] && bv[3] == bw[3]);
    let x = ((bv[0] as u32) << 24u32) | ((bv[1] as u32) << 16u32) | ((bv[2] as u32) << 8u32) | (
    bv[3] as u32);
    lemma_be_bytes_bits(v, bv[0], bv[1], bv[2], bv[3], x);
    lemma_be_bytes_bits(w, bw[0], bw[1], bw[2], bw[3], x);
}

/// The secret followed by the big-endian bytes of its checksum: the bytes that
/// are shared.
pub open spec fn with_checksum(secret: Seq<u8>) -> Seq<u8> {
    secret + be_bytes(crc32_of(secret))
}

/// The polynomials of a split of `secret` with threshold `k`: one per byte of
/// the secret followed by its checksum, each hiding that byte.
pub open spec fn is_split_of(polys: Seq<Seq<GF256>>, secret: Seq<u8>, k: u8) -> bool {
    let data = with_checksum(secret);
    &&& polys.len() == data.len()
    &&& forall|i: int| 0 <= i < data.len() ==> is_sharing_polynomial(#[trigger] polys[i], data[i], k)
}

/// The number of coefficients drawn to split a secret of `secret_len` bytes
/// with threshold `k`.
pub open spec fn draws_needed(k: u8, secret_len: int) -> int {
    (k - 1) * (secret_len + 4)
}

/// The polynomials of a split of `secret` with threshold `k` and the drawn
/// coefficients `draws`: for byte `i` of the secret and its checksum, the
/// draws `i * (k - 1)` to `(i + 1) * (k - 1)` followed by that byte.
pub open spec fn split_polynomials(secret: Seq<u8>, k: u8, draws: Seq<u8>) -> Seq<Seq<GF256>> {
    let data = with_checksum(secret);
    let d = k - 1;
    Seq::new(data.len(), |i: int| polynomial_of(draws.subrange(i * d, i * d + d), data[i]))
}

proof fn lemma_split_polynomials(secret: Seq<u8>, k: u8, draws: Seq<u8>)
    requires
        k >= 1,
        draws.len() == draws_needed(k, secret.len() as int),
    ensures
        is_split_of(split_polynomials(secret, k, draws), secret, k),
{
    let data = with_checksum(secret);
    let polys = split_polynomials(secret, k, draws);
    let d = k - 1;
    assert forall|i: int| 0 <= i < data.len() implies is_sharing_polynomial(
        #[trigger] polys[i],
        data[i],
        k,
    ) by {
        assert(i * d + d <= data.len() * d) by (nonlinear_arith)
            requires
                i + 1 <= data.len(),
                d >= 0,
        ;
        assert(0 <= i * d) by (nonlinear_arith)
            requires
                i >= 0,
                d >= 0,
        ;
        assert(data.len() * d == draws.len()) by (nonlinear_arith)
            requires
                draws.len() == d * data.len(),
        ;
        let sub = draws.subrange(i * d, i * d + d);
        assert(sub.len() == d);
        assert(polys[i] == polynomial_of(sub, data[i]));
        assert(polys[i].len() == d + 1);
        assert(polys[i].last() == GF256(data[i]));
    }
}

/// Equal draws give equal shares: the shares of a split at a coordinate are
/// determined by the secret, the threshold and the drawn coefficients.
pub proof fn lemma_same_draws_same_shares(
    secret: Seq<u8>,
    k: u8,
    draws: Seq<u8>,
    x: u8,
    a: Share,
    b: Share,
)
    requires
        is_evaluation(split_polynomials(secret, k, draws), x, a),
        is_evaluation(split_polynomials(secret, k, draws), x, b),
    ensures
        a.x == b.x,
        a.y@ == b.y@,
{
    lemma_shares_determined(split_polynomials(secret, k, draws), x, a, b);
}

/// Different draws give different shares: the first K shares of two splits of
/// one secret with different drawn coefficients differ in some y-value.
pub proof fn lemma_different_draws_different_shares(
    secret: Seq<u8>,
    k: u8,
    draws1: Seq<u8>,
    draws2: Seq<u8>,
    shares1: Seq<Share>,
    shares2: Seq<Share>,
)
    requires
        secret.len() > 0,
        k >= 1,
        draws1.len() == draws_needed(k, secret.len() as int),
        draws2.len() == draws_needed(k, secret.len() as int),
        draws1 != draws2,
        shares1.len() == k,
        shares2.len() == k,
        forall|n: int|
            0 <= n < k ==> is_evaluation(
                split_polynomials(secret, k, draws1),
                (n + 1) as u8,
                #[trigger] shares1[n],
            ),
        forall|n: int|
            0 <= n < k ==> is_evaluation(
                split_polynomials(secret, k, draws2),
                (n + 1) as u8,
                #[trigger] shares2[n],
            ),
    ensures
        exists|n: int, i: int|
            0 <= n < k && 0 <= i < shares1[n].y@.len() && #[trigger] shares1[n].y@[i]
                != #[trigger] shares2[n].y@[i],
{
    if !(exists|n: int, i: int|
        0 <= n < k && 0 <= i < shares1[n].y@.len() && #[trigger] shares1[n].y@[i]
            != #[trigger] shares2[n].y@[i]) {
        let data = with_checksum(secret);
        let d: int = k - 1;
        assert(!(forall|m: int| 0 <= m < draws1.len() ==> draws1[m] == draws2[m])) by {
            if forall|m: int| 0 <= m < draws1.len() ==> draws1[m] == draws2[m] {
                assert(draws1 =~= draws2);
            }
        }
        let m = choose|m: int| 0 <= m < draws1.len() && draws1[m] != draws2[m];
        assert(d > 0) by (nonlinear_arith)
            requires
                m < d * (data.len() as int),
                m >= 0,
        ;
        let i = m / d;
        let off = m % d;
        assert(m == d * i + off && 0 <= off < d && 0 <= i) by (nonlinear_arith)
            requires
                d > 0,
                m >= 0,
                i == m / d,
                off == m % d,
        ;
        assert(i < data.len()) by (nonlinear_arith)
            requires
                m == d * i + off,
                off >= 0,
                m < d * (data.len() as int),
                d > 0,
        ;
        assert(i * d + d <= draws1.len() && i * d == d * i) by (nonlinear_arith)
            requires
                i + 1 <= data.len(),
                d > 0,
                draws1.len() == d * (data.len() as int),
        ;
        let p1 = split_polynomials(secret, k, draws1)[i];
        let p2 = split_polynomials(secret, k, draws2)[i];
        assert(p1[off] == GF256(draws1[m]));
        assert(p2[off] == GF256(draws2[m]));
        let xs = first_points(k as nat);
        assert(distinct_points(xs));
        assert forall|j: int| 0 <= j < xs.len() implies eval_poly(p1, #[trigger] xs[j]) == eval_poly(
            p2,
            xs[j],
        ) by {
            assert(is_evaluation(split_polynomials(secret, k, draws1), (j + 1) as u8, shares1[j]));
            assert(is_evaluation(split_polynomials(secret, k, draws2), (j + 1) as u8, shares2[j]));
            assert(shares1[j].y@[i] == shares2[j].y@[i]);
        }
        lemma_interpolation_unique(xs, p1, p2);
    }
}

/// A single corrupted y-value changes exactly one recovered byte: if one of the
/// first K shares (at distinct nonzero x-coordinates) has its value at
/// position `i` changed, the bytes that interpolation recovers (the secret
/// followed by its checksum) differ at position `i` and nowhere else.
pub proof fn lemma_corruption_changes_one_byte(
    k: u8,
    shares: Seq<Share>,
    j: int,
    i: int,
    tampered: Share,
)
    requires
        k >= 1,
        shares.len() >= k,
        same_lengths(shares),
        distinct_xs(shares),
        forall|n: int| 0 <= n < shares.len() ==> (#[trigger] shares[n]).x.0 != 0,
        0 <= j < k,
        0 <= i < shares[j].y@.len(),
        tampered.x == shares[j].x,
        tampered.y@.len() == shares[j].y@.len(),
        forall|p: int| 0 <= p < tampered.y@.len() && p != i ==> tampered.y@[p] == shares[j].y@[p],
        tampered.y@[i] != shares[j].y@[i],
    ensures
        ({
            let before = interpolated(shares.take(k as int));
            let after = interpolated(shares.update(j, tampered).take(k as int));
            &&& after.len() == before.len()
            &&& after[i] != before[i]
            &&& forall|p: int| 0 <= p < before.len() && p != i ==> after[p] == before[p]
        }),
{
    let points = shares.take(k as int);
    let changed = shares.update(j, tampered).take(k as int);
    assert(changed =~= points.update(j, tampered));
    let xs = xs_of(points);
    assert(xs_of(changed) =~= xs);
    assert(changed[0].y@.len() == points[0].y@.len());
    assert forall|p: int| 0 <= p < points[0].y@.len() && p != i implies ys_of(changed, p)
        == ys_of(points, p) by {
        assert(ys_of(changed, p) =~= ys_of(points, p));
    }
    assert(distinct_points(xs)) by {
        assert forall|a: int, b: int|
            0 <= a < xs.len() && 0 <= b < xs.len() && a != b implies xs[a] != xs[b] by {
            if a < b {
                assert(shares[a].x.0 != shares[b].x.0);
            } else {
                assert(shares[b].x.0 != shares[a].x.0);
            }
        }
    }
    assert forall|a: int| 0 <= a < xs.len() implies xs[a] != 0 by {
        assert(shares[a].x.0 != 0);
    }
    let ys = ys_of(points, i);
    let v = shares[j].y@[i].0;
    let w = tampered.y@[i].0;
    let m = v ^ w;
    lemma_xor_difference(v, w);
    assert(ys_of(changed, i) =~= ys.update(j, ys[j] ^ m));
    lemma_lagrange_sensitive(xs, ys, j, m);
    let before = interpolated(points);
    let after = interpolated(changed);
    assert(after.len() == before.len());
    assert(after[i] != before[i]);
}

proof fn lemma_xor_difference(v: u8, w: u8)
    by (bit_vector)
    requires
        v != w,
    ensures
        v ^ w != 0,
        v ^ (v ^ w) == w,
{
}

/// The secret that recovered bytes hold: all but the last four, provided the
/// last four are the big-endian checksum of the rest.
pub open spec fn checked_secret(data: Seq<u8>) -> Result<Seq<u8>, ShamirError> {
    if data.len() < 4 {
        Err(ShamirError::ChecksumMismatch)
    } else if data.skip(data.len() - 4) == be_bytes(crc32_of(data.take(data.len() - 4))) {
        Ok(data.take(data.len() - 4))
    } else {
        Err(ShamirError::ChecksumMismatch)
    }
}

/// The outcome of recovering with threshold `k` from `shares`: the lengths of
/// all shares are checked first, then their x-coordinates, then their number.
pub open spec fn recovery(k: u8, shares: Seq<Share>) -> Result<Seq<u8>, ShamirError> {
    if shares.len() == 0 {
        Err(ShamirError::InsufficientShares { required: k, provided: 0 })
    } else if first_length_mismatch(shares, 0) is Some {
        Err(ShamirError::InconsistentShareLength)
    } else if first_repeat(shares, 0) is Some {
        Err(ShamirError::DuplicateShares(shares[first_repeat(shares, 0).unwrap()].x.0))
    } else if shares.len() < k {
        Err(ShamirError::InsufficientShares { required: k, provided: shares.len() as usize })
    } else {
        checked_secret(interpolated(shares.take(k as int)))
    }
}

/// No two shares have the same x-coordinate.
pub open spec fn distinct_xs(shares: Seq<Share>) -> bool {
    forall|a: int, b: int|
        0 <= a < b < shares.len() ==> (#[trigger] shares[a]).x.0 != (#[trigger] shares[b]).x.0
}

proof fn lemma_no_fault(shares: Seq<Share>, from: int)
    requires
        0 <= from,
        same_lengths(shares),
        distinct_xs(shares),
    ensures
        first_length_mismatch(shares, from) is None,
        first_repeat(shares, from) is None,
    decreases shares.len() - from,
{
    if from < shares.len() {
        assert(shares[from].y@.len() == shares[0].y@.len());
        assert(!(exists|j: int| 0 <= j < from && #[trigger] shares[j].x.0 == shares[from].x.0));
        lemma_no_fault(shares, from + 1);
    }
}

proof fn lemma_uniform_lengths(shares: Seq<Share>, from: int)
    requires
        0 <= from,
        same_lengths(shares),
    ensures
        first_length_mismatch(shares, from) is None,
    decreases shares.len() - from,
{
    if from < shares.len() {
        assert(shares[from].y@.len() == shares[0].y@.len());
        lemma_uniform_lengths(shares, from + 1);
    }
}

proof fn lemma_repeat_found(shares: Seq<Share>, from: int, i: int, j: int)
    requires
        0 <= from <= j,
        0 <= i < j < shares.len(),
        shares[i].x.0 == shares[j].x.0,
    ensures
        first_repeat(shares, from) is Some,
    decreases j - from,
{
    if from == j {
        assert(shares[i].x.0 == shares[from].x.0);
    } else if !(exists|m: int| 0 <= m < from && #[trigger] shares[m].x.0 == shares[from].x.0) {
        lemma_repeat_found(shares, from + 1, i, j);
    }
}

proof fn lemma_mismatch_found(shares: Seq<Share>, from: int, i: int)
    requires
        0 <= from <= i < shares.len(),
        shares[i].y@.len() != shares[0].y@.len(),
    ensures
        first_length_mismatch(shares, from) is Some,
    decreases i - from,
{
    if shares[from].y@.len() == shares[0].y@.len() {
        lemma_mismatch_found(shares, from + 1, i);
    }
}

/// A list that holds one x-coordinate twice is rejected with `DuplicateShares`,
/// however many other shares it holds.
pub proof fn lemma_duplicates_rejected(k: u8, shares: Seq<Share>, i: int, j: int)
    requires
        0 <= i < j < shares.len(),
        shares[i].x.0 == shares[j].x.0,
        same_lengths(shares),
    ensures
        recovery(k, shares) matches Err(ShamirError::DuplicateShares(_)),
{
    lemma_uniform_lengths(shares, 0);
    lemma_repeat_found(shares, 0, i, j);
}

/// A list of shares in which one share has a different number of y-values than
/// the first is rejected with `InconsistentShareLength`, whatever else it holds.
pub proof fn lemma_length_mismatch_rejected(k: u8, shares: Seq<Share>, i: int)
    requires
        0 <= i < shares.len(),
        shares[i].y@.len() != shares[0].y@.len(),
    ensures
        recovery(k, shares) == Err::<Seq<u8>, ShamirError>(ShamirError::InconsistentShareLength),
{
    lemma_mismatch_found(shares, 0, i);
}

/// Fewer than K consistent shares are rejected with `InsufficientShares`,
/// naming K and the number given.
pub proof fn lemma_below_threshold_rejected(k: u8, shares: Seq<Share>)
    requires
        shares.len() < k,
        same_lengths(shares),
        distinct_xs(shares),
    ensures
        recovery(k, shares) == Err::<Seq<u8>, ShamirError>(
            ShamirError::InsufficientShares { required: k, provided: shares.len() as usize },
        ),
{
    lemma_no_fault(shares, 0);
}

/// Round trip: K or more shares of a split of a nonempty secret, taken at
/// distinct x-coordinates, recover the secret.
pub proof fn lemma_round_trip(secret: Seq<u8>, polys: Seq<Seq<GF256>>, k: u8, shares: Seq<Share>)
    requires
        secret.len() > 0,
        k >= 1,
        is_split_of(polys, secret, k),
        shares.len() >= k,
        forall|j: int| 0 <= j < shares.len() ==> is_evaluation(polys, (#[trigger] shares[j]).x.0, shares[j]),
        distinct_xs(shares),
    ensures
        recovery(k, shares) == Ok::<Seq<u8>, ShamirError>(secret),
{
    let data = with_checksum(secret);
    assert(same_lengths(shares)) by {
        assert forall|j: int| 0 <= j < shares.len() implies #[trigger] shares[j].y@.len()
            == shares[0].y@.len() by {
            assert(is_evaluation(polys, shares[j].x.0, shares[j]));
            assert(is_evaluation(polys, shares[0].x.0, shares[0]));
        }
    }
    lemma_no_fault(shares, 0);
    let points = shares.take(k as int);
    let xs = xs_of(points);
    assert(distinct_points(xs)) by {
        assert forall|a: int, b: int|
            0 <= a < xs.len() && 0 <= b < xs.len() && a != b implies xs[a] != xs[b] by {
            if a < b {
                assert(shares[a].x.0 != shares[b].x.0);
            } else {
                assert(shares[b].x.0 != shares[a].x.0);
            }
        }
    }
    assert(is_evaluation(polys, shares[0].x.0, shares[0]));
    assert forall|i: int| 0 <= i < data.len() implies #[trigger] interpolated(points)[i] == data[i] by {
        let ys = ys_of(points, i);
        let p = polys[i];
        assert(is_sharing_polynomial(p, data[i], k));
        assert forall|j: int| 0 <= j < xs.len() implies ys[j] == eval_poly(p, #[trigger] xs[j]) by {
            assert(is_evaluation(polys, shares[j].x.0, shares[j]));
        }
        lemma_lagrange_recovers_constant(xs, ys, p);
    }
    assert(interpolated(points) =~= data);
    assert(data.take(data.len() - 4) =~= secret);
    assert(data.skip(data.len() - 4) =~= be_bytes(crc32_of(secret)));
}

/// The secret followed by the four big-endian bytes of `checksum`.
pub fn append_checksum(secret: &[u8], checksum: u32) -> (r: Vec<u8>)
    ensures
        r@ == secret@ + be_bytes(checksum),
{
    let mut data: Vec<u8> = Vec::new();
    let mut i: usize = 0;
    while i < secret.len()
        invariant
            i <= secret@.len(),
            data@ == secret@.take(i as int),
        decreases secret@.len() - i,
    {
        data.push(secret[i]);
        i += 1;
        proof {
            assert(secret@.take(i as int) =~= secret@.take((i - 1) as int).push(secret@[i - 1]));
        }
    }
    data.push((checksum >> 24u32) as u8);
    data.push((checksum >> 16u32) as u8);
    data.push((checksum >> 8u32) as u8);
    data.push(checksum as u8);
    proof {
        assert(data@ =~= secret@ + be_bytes(checksum));
    }
    data
}

/// Splits recovered bytes into the secret and the stored checksum, read
/// big-endian from the last four bytes; `None` when there are fewer than four.
pub fn split_checksum(data: &[u8]) -> (r: Option<(Vec<u8>, u32)>)
    ensures
        data@.len() < 4 ==> r is None,
        data@.len() >= 4 ==> (r matches Some((body, stored)) && body@ == data@.take(
            data@.len() - 4,
        ) && be_bytes(stored) == data@.skip(data@.len() - 4)),
{
    if data.len() < 4 {
        return None;
    }
    let n = data.len() - 4;
    let mut body: Vec<u8> = Vec::new();
    let mut i: usize = 0;
    while i < n
        invariant
            n == data@.len() - 4,
            i <= n,
            body@ == data@.take(i as int),
        decreases n - i,
    {
        body.push(data[i]);
        i += 1;
        proof {
            assert(data@.take(i as int) =~= data@.take((i - 1) as int).push(data@[i - 1]));
        }
    }
    let b0 = data[n];
    let b1 = data[n + 1];
    let b2 = data[n + 2];
    let b3 = data[n + 3];
    let stored: u32 = ((b0 as u32) << 24u32) | ((b1 as u32) << 16u32) | ((b2 as u32) << 8u32) | (
    b3 as u32);
    proof {
        lemma_be_value_bits(b0, b1, b2, b3, stored);
        assert(be_bytes(stored) =~= data@.skip(data@.len() - 4));
    }
    Some((body, stored))
}

/// A set of x-coordinates, held in a `hashbrown::HashSet<u8>`.
#[verifier::external_body]
pub struct CoordinateSet {
    set: hashbrown::HashSet<u8>,
}

/// The x-coordinates that a set holds.
pub uninterp spec fn coordinates(s: CoordinateSet) -> Set<u8>;

/// Relies on `hashbrown::HashSet::new`: a set that holds nothing.
#[verifier::external_body]
fn coordinate_set_new() -> (r: CoordinateSet)
    ensures
        coordinates(r) == Set::<u8>::empty(),
{
    CoordinateSet { set: hashbrown::HashSet::new() }
}

/// Relies on `hashbrown::HashSet::insert`: the value is in the set afterwards,
/// nothing else changes, and the result tells whether it was absent before.
#[verifier::external_body]
fn coordinate_set_insert(s: &mut CoordinateSet, x: u8) -> (r: bool)
    ensures
        coordinates(*final(s)) == coordinates(*old(s)).insert(x),
        r == !coordinates(*old(s)).contains(x),
{
    s.set.insert(x)
}

/// Shamir's secret sharing over GF(256) with reconstruction threshold K.
#[derive(Debug, PartialEq, Eq, Structural)]
pub struct Shamir {
    threshold: u8,
}

impl Shamir {
    /// The largest number of shares of one split: one per nonzero x-coordinate.
    pub const MAX_SHARES: u8 = 255;

    #[verifier::type_invariant]
    spec fn threshold_positive(&self) -> bool {
        self.threshold >= 1
    }

    /// The threshold K.
    pub closed spec fn spec_threshold(&self) -> u8 {
        self.threshold
    }

    /// A scheme with the given threshold, which must be at least 1.
    pub fn new(threshold: u8) -> (r: Result<Shamir, ShamirError>)
        ensures
            threshold == 0 ==> r == Err::<Shamir, ShamirError>(ShamirError::InvalidThreshold),
            threshold != 0 ==> (r matches Ok(s) && s.spec_threshold() == threshold),
    {
        if threshold == 0 {
            return Err(ShamirError::InvalidThreshold);
        }
        Ok(Shamir { threshold })
    }

    /// The threshold K, under its short name.
    pub fn k(&self) -> (r: u8)
        ensures
            r == self.spec_threshold(),
            r >= 1,
    {
        self.threshold()
    }

    /// The minimum number of shares that recover the secret.
    pub fn threshold(&self) -> (r: u8)
        ensures
            r == self.spec_threshold(),
            r >= 1,
    {
        proof {
            use_type_invariant(self);
        }
        self.threshold
    }

    /// The number of coefficients that a split of a secret of `secret_len`
    /// bytes draws: K - 1 for each byte of the secret and of its checksum;
    /// `None` when it does not fit in `usize`.
    pub fn draw_count(&self, secret_len: usize) -> (r: Option<usize>)
        ensures
            match r {
                Some(n) => n == draws_needed(self.spec_threshold(), secret_len as int),
                None => draws_needed(self.spec_threshold(), secret_len as int) > usize::MAX,
            },
    {
        proof {
            use_type_invariant(self);
        }
        let per_byte = (self.threshold - 1) as usize;
        if secret_len > usize::MAX - 4 {
            proof {
                if per_byte > 0 {
                    assert(per_byte * (secret_len + 4) >= secret_len + 4) by (nonlinear_arith)
                        requires
                            per_byte > 0,
                    ;
                }
            }
            if per_byte == 0 {
                proof {
                    assert(0 * (secret_len + 4) == 0);
                }
                return Some(0);
            }
            return None;
        }
        per_byte.checked_mul(secret_len + 4)
    }

    /// Splits `secret` with the given drawn coefficients: appends its
    /// big-endian CRC-32, builds for each byte of the result the polynomial
    /// whose leading coefficients are the next K - 1 draws and whose constant
    /// term is that byte, and returns the evaluator of their shares. Fails on
    /// an empty secret. A split draws each coefficient uniformly from 1..=255.
    pub fn split_with_draws(&self, secret: &[u8], draws: &[u8]) -> (r: Result<
        Evaluator,
        ShamirError,
    >)
        requires
            secret@.len() > 0 ==> draws@.len() == draws_needed(self.spec_threshold(), secret@.len() as int),
        ensures
            match r {
                Ok(ev) => secret@.len() > 0 && ev.polys() == split_polynomials(
                    secret@,
                    self.spec_threshold(),
                    draws@,
                ) && is_split_of(ev.polys(), secret@, self.spec_threshold()),
                Err(e) => secret@.len() == 0 && e == ShamirError::EmptyInput,
            },
    {
        proof {
            use_type_invariant(self);
        }
        if secret.len() == 0 {
            return Err(ShamirError::EmptyInput);
        }
        let checksum = crc32(secret);
        let data = append_checksum(secret, checksum);
        let per_byte = (self.threshold - 1) as usize;
        let ghost d = per_byte as int;
        let ghost polys_spec = split_polynomials(secret@, self.threshold, draws@);
        let n_draws = draws.len();
        let mut polys: Vec<Vec<GF256>> = Vec::new();
        let mut i: usize = 0;
        let mut pos: usize = 0;
        while i < data.len()
            invariant
                data@ == with_checksum(secret@),
                draws@.len() == d * data@.len(),
                n_draws == draws@.len(),
                d == self.threshold - 1,
                per_byte == d,
                polys_spec == split_polynomials(secret@, self.threshold, draws@),
                i <= data@.len(),
                pos == i * d,
                polys@.len() == i,
                forall|j: int| 0 <= j < i ==> (#[trigger] polys@[j])@ == polys_spec[j],
            decreases data@.len() - i,
        {
            proof {
                assert((i + 1) * d <= data@.len() * d) by (nonlinear_arith)
                    requires
                        i + 1 <= data@.len(),
                        d >= 0,
                ;
                assert((i + 1) * d == i * d + d) by (nonlinear_arith);
                assert(data@.len() * d == d * data@.len()) by (nonlinear_arith);
            }
            let poly = polynomial_from_range(GF256(data[i]), draws, pos, per_byte);
            polys.push(poly);
            i += 1;
            pos += per_byte;
        }
        let ev = evaluator(polys);
        proof {
            assert(ev.polys() =~= polys_spec);
            lemma_split_polynomials(secret@, self.threshold, draws@);
        }
        Ok(ev)
    }

    /// Recovers the secret: checks that all shares agree on their length, then
    /// that they have distinct x-coordinates, then that there are at least K of them,
    /// interpolates the first K, and verifies the checksum.
    pub fn recover(&self, shares: &[Share]) -> (r: Result<Vec<u8>, ShamirError>)
        ensures
            match r {
                Ok(v) => recovery(self.spec_threshold(), shares@) == Ok::<Seq<u8>, ShamirError>(v@),
                Err(e) => recovery(self.spec_threshold(), shares@) == Err::<Seq<u8>, ShamirError>(e),
            },
    {
        proof {
            use_type_invariant(self);
        }
        if shares.len() == 0 {
            return Err(ShamirError::InsufficientShares { required: self.threshold, provided: 0 });
        }
        let expected_len = shares[0].y.len();
        let mut i: usize = 0;
        while i < shares.len()
            invariant
                i <= shares@.len(),
                shares@.len() > 0,
                expected_len == shares@[0].y@.len(),
                first_length_mismatch(shares@, 0) == first_length_mismatch(shares@, i as int),
                forall|j: int| 0 <= j < i ==> (#[trigger] shares@[j]).y@.len() == expected_len,
            decreases shares@.len() - i,
        {
            if shares[i].y.len() != expected_len {
                return Err(ShamirError::InconsistentShareLength);
            }
            i += 1;
        }
        let mut seen = coordinate_set_new();
        let mut i: usize = 0;
        while i < shares.len()
            invariant
                i <= shares@.len(),
                first_length_mismatch(shares@, 0) is None,
                forall|j: int| 0 <= j < shares@.len() ==> (#[trigger] shares@[j]).y@.len()
                    == expected_len,
                expected_len == shares@[0].y@.len(),
                first_repeat(shares@, 0) == first_repeat(shares@, i as int),
                coordinates(seen) == Set::new(
                    |v: u8| exists|j: int| 0 <= j < i && (#[trigger] shares@[j]).x.0 == v,
                ),
            decreases shares@.len() - i,
        {
            let share = &shares[i];
            let ghost before = coordinates(seen);
            if !coordinate_set_insert(&mut seen, share.x.0) {
                proof {
                    assert(before.contains(share.x.0));
                    let j = choose|j: int| 0 <= j < i && #[trigger] shares@[j].x.0 == share.x.0;
                    assert(shares@[j].x.0 == shares@[i as int].x.0);
                }
                return Err(ShamirError::DuplicateShares(share.x.0));
            }
            proof {
                assert(!(exists|j: int|
                    0 <= j < i && #[trigger] shares@[j].x.0 == shares@[i as int].x.0)) by {
                    if exists|j: int|
                        0 <= j < i && #[trigger] shares@[j].x.0 == shares@[i as int].x.0 {
                        let j = choose|j: int|
                            0 <= j < i && #[trigger] shares@[j].x.0 == shares@[i as int].x.0;
                        assert(before.contains(shares@[j].x.0));
                    }
                }
                assert(coordinates(seen) =~= Set::new(
                    |v: u8| exists|j: int| 0 <= j < i + 1 && (#[trigger] shares@[j]).x.0 == v,
                )) by {
                    assert forall|v: u8| #[trigger]
                        coordinates(seen).contains(v) implies (exists|j: int|
                        0 <= j < i + 1 && (#[trigger] shares@[j]).x.0 == v) by {
                        if v == shares@[i as int].x.0 {
                            assert(shares@[i as int].x.0 == v);
                        }
                    }
                }
            }
            i += 1;
        }
        if shares.len() < self.threshold as usize {
            return Err(
                ShamirError::InsufficientShares { required: self.threshold, provided: shares.len() },
            );
        }
        proof {
            assert(same_lengths(shares@));
        }
        let recovered = interpolate_first(shares, self.threshold as usize);
        match split_checksum(recovered.as_slice()) {
            None => Err(ShamirError::ChecksumMismatch),
            Some((secret, stored)) => {
                let expected = crc32(secret.as_slice());
                if expected == stored {
                    Ok(secret)
                } else {
                    proof {
                        if recovered@.skip(recovered@.len() - 4) == be_bytes(expected) {
                            lemma_be_bytes_injective(stored, expected);
                        }
                    }
                    Err(ShamirError::ChecksumMismatch)
                }
            },
        }
    }
}

impl Clone for Shamir {
    fn clone(&self) -> (r: Shamir)
        ensures
            r == *self,
    {
        proof {
            use_type_invariant(self);
        }
        Shamir { threshold: self.threshold }
    }
}

} // verus!
