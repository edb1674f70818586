use fractus_shamir::gf256::GF256;
use fractus_shamir::poly::{evaluate_polynomial, evaluator, interpolate, polynomial_from, validate_polynomials};
use rand::distributions::{Distribution, Uniform};
use fractus_shamir::Share;
use rand_chacha::rand_core::SeedableRng;

fn random_polynomial<R: rand::Rng>(secret_byte: GF256, threshold: u8, rng: &mut R) -> Vec<GF256> {
    let coefficient = Uniform::new_inclusive(1u8, 255u8);
    let draws: Vec<u8> = (1..threshold.max(1)).map(|_| coefficient.sample(rng)).collect();
    polynomial_from(secret_byte, &draws)
}

#[test]
fn test_polynomial_evaluation() {
    // Test polynomial: 2x^2 + 3x + 5
    let coeffs = vec![GF256(2), GF256(3), GF256(5)];

    // At x=0: should give constant term (5)
    assert_eq!(evaluate_polynomial(&coeffs, GF256(0)), GF256(5));

    // At x=1: 2*1 + 3*1 + 5 = 2 + 3 + 5 = 4 (in GF256: 2 ⊕ 3 ⊕ 5)
    assert_eq!(evaluate_polynomial(&coeffs, GF256(1)), GF256(4));
}

#[test]
fn test_random_polynomial_structure() {
    let mut rng = rand_chacha::ChaCha8Rng::from_seed([0; 32]);
    let secret = GF256(42);
    let threshold = 3;

    let poly = random_polynomial(secret, threshold, &mut rng);

    // Should have correct length
    assert_eq!(poly.len(), threshold as usize);

    // Secret should be the constant term (last coefficient)
    assert_eq!(poly[poly.len() - 1], secret);

    // All other coefficients should be non-zero (except in extremely rare cases)
    for &coeff in &poly[..poly.len() - 1] {
        assert_ne!(coeff, GF256::zero());
    }
}

#[test]
fn test_interpolation_simple() {
    // Create a simple polynomial: f(x) = 5 (constant)
    let shares = vec![
        Share::new(GF256(1), vec![GF256(5)]),
        Share::new(GF256(2), vec![GF256(5)]),
    ];

    let result = interpolate(&shares);
    assert_eq!(result, vec![5]);
}

#[test]
fn test_interpolation_linear() {
    // Test with known polynomial values in GF(256)
    // Let's use a simpler case where we can verify the math

    // Create shares from a known linear polynomial: f(x) = 1x + 5 = x ⊕ 5
    // f(1) = 1 ⊕ 5 = 4
    // f(2) = 2 ⊕ 5 = 7
    let shares = vec![
        Share::new(GF256(1), vec![GF256(4)]),
        Share::new(GF256(2), vec![GF256(7)]),
    ];

    let result = interpolate(&shares);
    // f(0) = 0 ⊕ 5 = 5
    assert_eq!(result, vec![5]);
}

#[test]
fn test_evaluator_consistency() {
    let mut rng = rand_chacha::ChaCha8Rng::from_seed([0; 32]);
    let secret_bytes = vec![GF256(10), GF256(20)];
    let threshold = 3;

    let polys: Vec<_> = secret_bytes
        .iter()
        .map(|&byte| random_polynomial(byte, threshold, &mut rng))
        .collect();

    let shares: Vec<_> = evaluator(polys).take(threshold as usize);

    // All shares should have the same y-vector length
    assert!(shares.iter().all(|s| s.y.len() == secret_bytes.len()));

    // All shares should have different x-coordinates
    let x_coords: std::collections::HashSet<_> = shares.iter().map(|s| s.x.0).collect();
    assert_eq!(x_coords.len(), shares.len());
}

#[test]
fn test_round_trip_secret_sharing() {
    let mut rng = rand_chacha::ChaCha8Rng::from_seed([42; 32]);
    let original_secret = vec![GF256(100), GF256(200), GF256(50)];
    let threshold = 3;

    // Generate polynomials for each byte
    let polys: Vec<_> = original_secret
        .iter()
        .map(|&byte| random_polynomial(byte, threshold, &mut rng))
        .collect();

    // Generate shares
    let shares: Vec<_> = evaluator(polys).take(threshold as usize);

    // Recover secret
    let recovered_bytes = interpolate(&shares);
    let recovered_secret: Vec<_> = recovered_bytes.into_iter().map(GF256).collect();

    assert_eq!(recovered_secret, original_secret);
}

#[test]
fn test_polynomial_validation() {
    let valid_polys = vec![
        vec![GF256(1), GF256(2), GF256(3)], // degree 2
        vec![GF256(4), GF256(5), GF256(6)], // degree 2
    ];

    assert!(validate_polynomials(&valid_polys, 3).is_ok());

    let invalid_polys = vec![
        vec![GF256(1), GF256(2)],           // degree 1
        vec![GF256(4), GF256(5), GF256(6)], // degree 2
    ];

    assert!(validate_polynomials(&invalid_polys, 3).is_err());
}

#[test]
fn test_empty_input_handling() {
    let empty_shares: Vec<Share> = vec![];
    let result = interpolate(&empty_shares);
    assert!(result.is_empty());

    assert!(validate_polynomials(&[], 3).is_err());
}

#[test]
fn test_horners_method_correctness() {
    // Test that our Horner's method implementation is correct
    // Polynomial: 3x^3 + 2x^2 + x + 5
    let coeffs = vec![GF256(3), GF256(2), GF256(1), GF256(5)];
    let x = GF256(2);

    // Manual calculation in GF256:
    // 3*8 + 2*4 + 1*2 + 5 = 24 + 8 + 2 + 5 = 39
    // But in GF256: 3*8 ⊕ 2*4 ⊕ 1*2 ⊕ 5
    let expected = GF256(3) * (GF256(2) * GF256(2) * GF256(2))
        + GF256(2) * (GF256(2) * GF256(2))
        + GF256(1) * GF256(2)
        + GF256(5);

    assert_eq!(evaluate_polynomial(&coeffs, x), expected);
}

#[test]
fn polynomial_from_puts_the_secret_last() {
    assert_eq!(polynomial_from(GF256(9), &[3, 4]), vec![GF256(3), GF256(4), GF256(9)]);
    assert_eq!(polynomial_from(GF256(9), &[]), vec![GF256(9)]);
}
