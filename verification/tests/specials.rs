use sophy::specials::{is_perfect, sigma, MathError};

#[test]
fn test_sigma_basic() {
    assert_eq!(sigma(1).unwrap(), 1); // σ(1) = 1
    assert_eq!(sigma(2).unwrap(), 3); // σ(2) = 1+2 = 3
    assert_eq!(sigma(3).unwrap(), 4); // σ(3) = 1+3 = 4
    assert_eq!(sigma(4).unwrap(), 7); // σ(4) = 1+2+4 = 7
    assert_eq!(sigma(6).unwrap(), 12); // σ(6) = 1+2+3+6 = 12
    assert_eq!(sigma(12).unwrap(), 28); // σ(12) = 1+2+3+4+6+12 = 28
}

#[test]
fn test_sigma_perfect_numbers() {
    // Known perfect numbers satisfy σ(n) = 2n
    assert_eq!(sigma(6).unwrap(), 12); // 2×6 = 12
    assert_eq!(sigma(28).unwrap(), 56); // 2×28 = 56
    assert_eq!(sigma(496).unwrap(), 992); // 2×496 = 992
}

#[test]
fn test_sigma_primes() {
    // For prime p: σ(p) = 1 + p
    let primes = [2, 3, 5, 7, 11, 13];
    for &p in &primes {
        assert_eq!(sigma(p).unwrap(), 1 + p);
    }
}

#[test]
fn test_is_perfect() {
    // Perfect number detection
    assert!(is_perfect(6));
    assert!(is_perfect(28));
    assert!(is_perfect(496));

    // Non-perfect numbers
    assert!(!is_perfect(1));
    assert!(!is_perfect(10));
    assert!(!is_perfect(100));
}

#[test]
fn test_sigma_zero_domain_error() {
    // The divisor sum is undefined for 0
    assert_eq!(sigma(0), Err(MathError::DomainError));
}

#[test]
fn test_sigma_perfect_squares() {
    // The square root of n is counted once, not twice
    assert_eq!(sigma(9).unwrap(), 13); // σ(9) = 1+3+9
    assert_eq!(sigma(16).unwrap(), 31); // σ(16) = 1+2+4+8+16
    assert_eq!(sigma(36).unwrap(), 91); // σ(36) = 1+2+3+4+6+9+12+18+36
}

#[test]
fn test_sigma_large_prime() {
    assert_eq!(sigma(1_000_000_007).unwrap(), 1_000_000_008);
}

#[test]
fn test_sigma_large_inputs() {
    // σ(3·5·17·257·65537) = 4·6·18·258·65538, the largest 32-bit argument
    assert_eq!(sigma(4_294_967_295).unwrap(), 7_304_603_328);
    // σ(2^33) = 2^34 − 1
    assert_eq!(sigma(8_589_934_592).unwrap(), 17_179_869_183);
}

#[test]
fn test_is_perfect_more() {
    assert!(is_perfect(8128));
    assert!(!is_perfect(0));
    assert!(!is_perfect(2));
    assert!(!is_perfect(8129));
}

#[test]
fn test_sigma_deterministic() {
    // No hidden state: a second call returns the identical result
    for n in [0u64, 1, 6, 97, 496, 1000] {
        assert_eq!(sigma(n), sigma(n));
    }
}

#[test]
fn test_is_perfect_deterministic() {
    for n in [0u64, 1, 6, 97, 496, 1000] {
        assert_eq!(is_perfect(n), is_perfect(n));
    }
}
