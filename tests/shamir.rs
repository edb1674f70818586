use fractus_shamir::gf256::GF256;
use fractus_shamir::poly::Evaluator;
use fractus_shamir::{Shamir, ShamirError, Share};
use rand::distributions::{Distribution, Uniform};
use rand_chacha::rand_core::SeedableRng;
use std::collections::HashSet;

fn draw_bytes<R: rand::Rng>(rng: &mut R, n: usize) -> Vec<u8> {
    let coefficient = Uniform::new_inclusive(1u8, 255u8);
    (0..n).map(|_| coefficient.sample(rng)).collect()
}

fn split_with_rng<R: rand::Rng>(
    shamir: &Shamir,
    secret: &[u8],
    rng: &mut R,
) -> Result<Evaluator, ShamirError> {
    let draws = if secret.is_empty() {
        Vec::new()
    } else {
        draw_bytes(rng, shamir.draw_count(secret.len()).unwrap())
    };
    shamir.split_with_draws(secret, &draws)
}

fn split(shamir: &Shamir, secret: &[u8]) -> Result<Evaluator, ShamirError> {
    split_with_rng(shamir, secret, &mut rand::thread_rng())
}

#[test]
fn test_threshold_validation() {
    assert!(Shamir::new(0).is_err());
    assert!(Shamir::new(1).is_ok());
    assert!(Shamir::new(255).is_ok());
}

#[test]
fn test_empty_secret() {
    let shamir = Shamir::new(3).unwrap();
    let mut rng = rand_chacha::ChaCha8Rng::from_seed([0; 32]);
    assert!(split_with_rng(&shamir, &[], &mut rng).is_err());
}

#[test]
fn test_basic_split_and_recover() {
    let shamir = Shamir::new(3).unwrap();
    let mut rng = rand_chacha::ChaCha8Rng::from_seed([0x90; 32]);
    let secret = b"Hello, Shamir!";

    let shares: Vec<_> = split_with_rng(&shamir, secret, &mut rng)
        .unwrap()
        .take(5);

    let recovered = shamir.recover(&shares[..3]).unwrap();
    assert_eq!(&recovered, secret);
}

#[test]
fn test_insufficient_shares() {
    let shamir = Shamir::new(3).unwrap();
    let mut rng = rand_chacha::ChaCha8Rng::from_seed([0x90; 32]);

    let shares: Vec<_> = split_with_rng(&shamir, b"test", &mut rng)
        .unwrap()
        .take(2);

    let result = shamir.recover(&shares);
    assert!(matches!(
        result,
        Err(ShamirError::InsufficientShares {
            required: 3,
            provided: 2
        })
    ));
}

#[test]
fn test_duplicate_shares() {
    let shamir = Shamir::new(2).unwrap();
    let mut rng = rand_chacha::ChaCha8Rng::from_seed([0x90; 32]);

    let mut shares: Vec<_> = split_with_rng(&shamir, b"test", &mut rng)
        .unwrap()
        .take(2);

    shares.push(shares[0].clone()); // Add duplicate

    let result = shamir.recover(&shares);
    assert!(matches!(result, Err(ShamirError::DuplicateShares(_))));
}

#[test]
fn test_threshold_getter() {
    let shamir = Shamir::new(7).unwrap();
    assert_eq!(shamir.threshold(), 7);
}

#[test]
fn test_single_byte_secret() {
    let shamir = Shamir::new(2).unwrap();
    let mut rng = rand_chacha::ChaCha8Rng::from_seed([1; 32]);
    let secret = b"X";

    let shares: Vec<_> = split_with_rng(&shamir, secret, &mut rng)
        .unwrap()
        .take(3);

    let recovered = shamir.recover(&shares[..2]).unwrap();
    assert_eq!(&recovered, secret);
}

#[test]
fn test_large_secret() {
    let shamir = Shamir::new(5).unwrap();
    let mut rng = rand_chacha::ChaCha8Rng::from_seed([2; 32]);

    // Create a 1KB secret
    let secret: Vec<u8> = (0..1024).map(|i| (i % 256) as u8).collect();

    let shares: Vec<_> = split_with_rng(&shamir, &secret, &mut rng)
        .unwrap()
        .take(7);

    let recovered = shamir.recover(&shares[..5]).unwrap();
    assert_eq!(recovered, secret);
}

#[test]
fn test_very_large_secret() {
    let shamir = Shamir::new(3).unwrap();
    let mut rng = rand_chacha::ChaCha8Rng::from_seed([3; 32]);

    // Create a 10KB secret with random-ish data
    let secret: Vec<u8> = (0..10240).map(|i| ((i * 7 + i / 13) % 256) as u8).collect();

    let shares: Vec<_> = split_with_rng(&shamir, &secret, &mut rng)
        .unwrap()
        .take(5);

    let recovered = shamir.recover(&shares[..3]).unwrap();
    assert_eq!(recovered, secret);
}

#[test]
fn test_all_possible_byte_values() {
    let shamir = Shamir::new(3).unwrap();
    let mut rng = rand_chacha::ChaCha8Rng::from_seed([4; 32]);

    // Test with all possible byte values
    let secret: Vec<u8> = (0..=255).collect();

    let shares: Vec<_> = split_with_rng(&shamir, &secret, &mut rng)
        .unwrap()
        .take(5);

    let recovered = shamir.recover(&shares[..3]).unwrap();
    assert_eq!(recovered, secret);
}

#[test]
fn test_minimum_threshold() {
    let shamir = Shamir::new(1).unwrap();
    let mut rng = rand_chacha::ChaCha8Rng::from_seed([5; 32]);
    let secret = b"threshold one";

    let shares: Vec<_> = split_with_rng(&shamir, secret, &mut rng)
        .unwrap()
        .take(3);

    // Should be able to recover with just one share
    let recovered = shamir.recover(&shares[..1]).unwrap();
    assert_eq!(&recovered, secret);
}

#[test]
fn test_maximum_threshold() {
    let shamir = Shamir::new(255).unwrap();
    let mut rng = rand_chacha::ChaCha8Rng::from_seed([6; 32]);
    let secret = b"max threshold";

    let shares: Vec<_> = split_with_rng(&shamir, secret, &mut rng)
        .unwrap()
        .take(255);

    assert_eq!(shares.len(), 255);

    // Need all 255 shares to recover
    let recovered = shamir.recover(&shares).unwrap();
    assert_eq!(&recovered, secret);
}

#[test]
fn test_exact_threshold_shares() {
    let shamir = Shamir::new(4).unwrap();
    let mut rng = rand_chacha::ChaCha8Rng::from_seed([7; 32]);
    let secret = b"exactly four shares needed";

    let shares: Vec<_> = split_with_rng(&shamir, secret, &mut rng)
        .unwrap()
        .take(4);

    // Should work with exactly the threshold number
    let recovered = shamir.recover(&shares).unwrap();
    assert_eq!(&recovered, secret);
}

#[test]
fn test_more_than_needed_shares() {
    let shamir = Shamir::new(3).unwrap();
    let mut rng = rand_chacha::ChaCha8Rng::from_seed([8; 32]);
    let secret = b"more shares than needed";

    let shares: Vec<_> = split_with_rng(&shamir, secret, &mut rng)
        .unwrap()
        .take(10);

    // Should work with more shares than threshold
    let recovered = shamir.recover(&shares).unwrap();
    assert_eq!(&recovered, secret);
}

#[test]
fn test_share_uniqueness() {
    let shamir = Shamir::new(2).unwrap();
    let mut rng = rand_chacha::ChaCha8Rng::from_seed([10; 32]);
    let secret = b"unique shares test";

    let shares: Vec<_> = split_with_rng(&shamir, secret, &mut rng)
        .unwrap()
        .take(10);

    // All x-coordinates should be unique
    let x_coords: HashSet<u8> = shares.iter().map(|s| s.x().value()).collect();
    assert_eq!(x_coords.len(), shares.len());

    // All x-coordinates should be non-zero
    assert!(!x_coords.contains(&0));
}

#[test]
fn test_share_structure() {
    let shamir = Shamir::new(3).unwrap();
    let mut rng = rand_chacha::ChaCha8Rng::from_seed([11; 32]);
    let secret = b"structure test";

    let shares: Vec<_> = split_with_rng(&shamir, secret, &mut rng)
        .unwrap()
        .take(5);

    for share in &shares {
        // Y-vector should have the same length as secret + CRC
        assert_eq!(share.y().len(), secret.len() + 4); // +4 for CRC32

        // X-coordinate should be non-zero
        assert_ne!(share.x().value(), 0);
    }
}

#[test]
fn test_no_shares_provided() {
    let shamir = Shamir::new(3).unwrap();
    let empty_shares: Vec<Share> = vec![];

    let result = shamir.recover(&empty_shares);
    assert!(matches!(
        result,
        Err(ShamirError::InsufficientShares {
            required: 3,
            provided: 0
        })
    ));
}

#[test]
fn test_random_vs_deterministic() {
    let shamir = Shamir::new(3).unwrap();
    let secret = b"deterministic test";

    // Generate shares with default RNG (should be different each time)
    let shares1: Vec<_> = split(&shamir, secret).unwrap().take(5);
    let shares2: Vec<_> = split(&shamir, secret).unwrap().take(5);

    // Shares should be different (different random polynomials)
    assert_ne!(shares1[0].y(), shares2[0].y());

    // But both should recover the same secret
    let recovered1 = shamir.recover(&shares1[..3]).unwrap();
    let recovered2 = shamir.recover(&shares2[..3]).unwrap();
    assert_eq!(recovered1, recovered2);
    assert_eq!(&recovered1, secret);
}

#[test]
fn test_deterministic_with_same_seed() {
    let shamir = Shamir::new(2).unwrap();
    let secret = b"seed test";

    // Same seed should produce identical shares
    let mut rng1 = rand_chacha::ChaCha8Rng::from_seed([42; 32]);
    let mut rng2 = rand_chacha::ChaCha8Rng::from_seed([42; 32]);

    let shares1: Vec<_> = split_with_rng(&shamir, secret, &mut rng1)
        .unwrap()
        .take(3);

    let shares2: Vec<_> = split_with_rng(&shamir, secret, &mut rng2)
        .unwrap()
        .take(3);

    // Should be identical
    assert_eq!(shares1.len(), shares2.len());
    for (s1, s2) in shares1.iter().zip(shares2.iter()) {
        assert_eq!(s1.x(), s2.x());
        assert_eq!(s1.y(), s2.y());
    }
}

#[test]
fn test_binary_data() {
    let shamir = Shamir::new(3).unwrap();
    let mut rng = rand_chacha::ChaCha8Rng::from_seed([14; 32]);

    // Test with binary data including null bytes
    let secret = vec![0x00, 0xFF, 0x80, 0x7F, 0x01, 0xFE, 0x00, 0x00];

    let shares: Vec<_> = split_with_rng(&shamir, &secret, &mut rng)
        .unwrap()
        .take(5);

    let recovered = shamir.recover(&shares[..3]).unwrap();
    assert_eq!(recovered, secret);
}

#[test]
fn test_edge_case_thresholds() {
    // Test various threshold values
    for threshold in [1, 2, 10, 50, 100, 200, 255] {
        let shamir = Shamir::new(threshold).unwrap();
        let mut rng = rand_chacha::ChaCha8Rng::from_seed([threshold as u8; 32]);
        let secret = format!("threshold {}", threshold).into_bytes();

        let shares: Vec<_> = split_with_rng(&shamir, &secret, &mut rng)
            .unwrap()
            .take(threshold as usize);

        let recovered = shamir.recover(&shares).unwrap();
        assert_eq!(recovered, secret);
    }
}

#[test]
fn test_multiple_duplicate_shares() {
    let shamir = Shamir::new(2).unwrap();
    let mut rng = rand_chacha::ChaCha8Rng::from_seed([15; 32]);

    let shares: Vec<_> = split_with_rng(&shamir, b"duplicate test", &mut rng)
        .unwrap()
        .take(2);

    // Create multiple duplicates
    let duplicated_shares = vec![
        shares[0].clone(),
        shares[1].clone(),
        shares[0].clone(), // Duplicate of first
        shares[1].clone(), // Duplicate of second
    ];

    let result = shamir.recover(&duplicated_shares);
    assert!(matches!(result, Err(ShamirError::DuplicateShares(_))));
}

#[test]
fn test_share_serialization_roundtrip() {
    let shamir = Shamir::new(2).unwrap();
    let mut rng = rand_chacha::ChaCha8Rng::from_seed([16; 32]);
    let secret = b"serialization test";

    let original_shares: Vec<_> = split_with_rng(&shamir, secret, &mut rng)
        .unwrap()
        .take(3);

    // Serialize and deserialize each share
    let mut restored_shares = Vec::new();
    for share in &original_shares {
        let bytes = share.to_bytes();
        let restored = Share::from_bytes(&bytes).unwrap();
        restored_shares.push(restored);
    }

    // Should be able to recover with restored shares
    let recovered = shamir.recover(&restored_shares[..2]).unwrap();
    assert_eq!(&recovered, secret);
}

#[test]
fn test_stress_many_shares() {
    let shamir = Shamir::new(10).unwrap();
    let mut rng = rand_chacha::ChaCha8Rng::from_seed([18; 32]);
    let secret = b"stress test with many shares";

    // Generate many shares
    let shares: Vec<_> = split_with_rng(&shamir, secret, &mut rng)
        .unwrap()
        .take(200);

    assert_eq!(shares.len(), 200);

    // All x-coordinates should be unique
    let x_coords: HashSet<u8> = shares.iter().map(|s| s.x().value()).collect();
    assert_eq!(x_coords.len(), 200);

    // Should be able to recover with any subset of 10 shares
    let recovered = shamir.recover(&shares[50..60]).unwrap();
    assert_eq!(&recovered, secret);
}

#[test]
fn test_unicode_data() {
    let shamir = Shamir::new(3).unwrap();
    let mut rng = rand_chacha::ChaCha8Rng::from_seed([19; 32]);

    // Test with UTF-8 encoded Unicode data
    let secret = "Hello 世界! 🚀".as_bytes();

    let shares: Vec<_> = split_with_rng(&shamir, secret, &mut rng)
        .unwrap()
        .take(5);

    let recovered = shamir.recover(&shares[..3]).unwrap();
    assert_eq!(recovered, secret);

    // Verify it's still valid UTF-8
    let recovered_string = String::from_utf8(recovered).unwrap();
    assert_eq!(recovered_string, "Hello 世界! 🚀");
}

fn make_shares(shamir: &Shamir, secret: &[u8], n: usize) -> Vec<Share> {
    let mut rng = rand_chacha::ChaCha8Rng::from_seed([0x90; 32]);
    split_with_rng(shamir, secret, &mut rng).unwrap().take(n)
}

#[test]
fn test_insufficient_shares_err() {
    let shamir = Shamir::new(255).unwrap();
    let shares: Vec<Share> = make_shares(&shamir, b"Hello world!", 254);
    let secret = shamir.recover(&shares);
    assert!(secret.is_err());
}

#[test]
fn test_duplicate_shares_err() {
    let shamir = Shamir::new(255).unwrap();
    let mut shares: Vec<Share> = make_shares(&shamir, b"Hello world!", 255);
    shares[1] = Share {
        x: shares[0].x.clone(),
        y: shares[0].y.clone(),
    };
    let secret = shamir.recover(&shares);
    assert!(secret.is_err());
}

#[test]
fn test_checksum_err() {
    let shamir = Shamir::new(255).unwrap();
    let mut shares: Vec<Share> = make_shares(&shamir, b"Hello world", 255);
    shares[0].y[0] = shares[0].y[0].clone() + GF256(1);
    let secret = shamir.recover(&shares);
    assert!(secret.is_err());
}

#[test]
fn test_integration_works() {
    let shamir = Shamir::new(255).unwrap();
    let shares: Vec<Share> = make_shares(&shamir, b"Hello world!", 255);
    let secret = shamir.recover(&shares).unwrap();
    assert_eq!(secret, b"Hello world!");
}
