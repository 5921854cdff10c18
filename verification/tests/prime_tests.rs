use gen_prime::FindPrimeFrom;
use gen_prime::GenPrime;
use gen_prime::StdSource;
use gen_prime::U256;
use gen_prime::primality::check_prime_u32;
use gen_prime::tables::primes_with_bits;
use gen_prime::u256_to_biguint;
use num_bigint::BigUint;

#[test]
fn test_find_prime_from() {
    let cases: [(u64, u64); 12] = [
        (0, 2),
        (1, 2),
        (2, 2),
        (3, 3),
        (4, 5),
        (5, 5),
        (6, 7),
        (98, 101),
        (360, 367),
        (7855, 7867),
        (7855, 7867),
        (7919, 7919),
    ];
    for (a, b) in cases {
        assert_eq!((a as u32).find_prime_from(), b as u32);
        assert_eq!(a.find_prime_from(), b);
        assert_eq!(U256::from_u64(a).find_prime_from(), U256::from_u64(b));
        assert_eq!(BigUint::from(a).find_prime_from(), BigUint::from(b));
    }
    assert_eq!(834219510u32.find_prime_from(), 834219521u32);
    assert_eq!(
        U256::from_u64(2609232758985927650).find_prime_from(),
        U256::from_u64(2609232758985927689)
    );
    assert_eq!(
        BigUint::from(2609232758985927650u64).find_prime_from(),
        BigUint::from(2609232758985927689u64)
    );
}

#[test]
fn test_gen_prime() {
    let mut rng = StdSource::from_seed(0xcafef00dd15ea5e5);
    assert_eq!(u8::gen_prime(&mut rng, 5).leading_zeros(), u8::BITS - 5);
    assert_eq!(u16::gen_prime(&mut rng, 10).leading_zeros(), u16::BITS - 10);
    assert_eq!(u32::gen_prime(&mut rng, 30).leading_zeros(), u32::BITS - 30);
    assert_eq!(u64::gen_prime(&mut rng, 51).leading_zeros(), u64::BITS - 51);
    assert_eq!(u256_to_biguint(U256::gen_prime(&mut rng, 200)).bits(), 200);
    assert_eq!(BigUint::gen_prime(&mut rng, 500).bits(), 500);
}

#[test]
fn test_fixed_seed_reproducible() {
    let mut rng1 = StdSource::from_seed(7);
    let mut rng2 = StdSource::from_seed(7);
    let a1 = u64::gen_prime(&mut rng1, 48);
    let a2 = u64::gen_prime(&mut rng2, 48);
    assert_eq!(a1, a2);
    let b1 = u32::gen_prime(&mut rng1, 20);
    let b2 = u32::gen_prime(&mut rng2, 20);
    assert_eq!(b1, b2);
    let c1 = BigUint::gen_prime(&mut rng1, 150);
    let c2 = BigUint::gen_prime(&mut rng2, 150);
    assert_eq!(c1, c2);
    let d1 = u8::gen_prime(&mut rng1, 6);
    let d2 = u8::gen_prime(&mut rng2, 6);
    assert_eq!(d1, d2);
}

#[test]
fn test_tiny_tables_complete() {
    for w in 2u32..=16 {
        let lo: u32 = 1 << (w - 1);
        let hi: u32 = 1 << w;
        let mut expected: Vec<u16> = Vec::new();
        for c in lo..hi {
            let mut prime = c >= 2;
            let mut d = 2u32;
            while d * d <= c {
                if c % d == 0 {
                    prime = false;
                    break;
                }
                d += 1;
            }
            if prime {
                expected.push(c as u16);
            }
        }
        assert_eq!(primes_with_bits(w), expected);
    }
}

#[test]
fn test_gen_prime_tiny_membership() {
    let mut rng = StdSource::from_seed(99);
    for w in 2u32..=8 {
        let table = primes_with_bits(w);
        for _ in 0..8 {
            let p = u8::gen_prime(&mut rng, w);
            assert!(table.contains(&(p as u16)));
        }
    }
}

#[test]
fn test_prime_fixed_points() {
    for p in [2u64, 3, 5, 101, 7919, 65537, 2609232758985927689] {
        assert_eq!(p.find_prime_from(), p);
        assert_eq!(BigUint::from(p).find_prime_from(), BigUint::from(p));
        assert_eq!(U256::from_u64(p).find_prime_from(), U256::from_u64(p));
        if p <= u32::MAX as u64 {
            assert_eq!((p as u32).find_prime_from(), p as u32);
        }
    }
}

#[test]
fn test_gen_prime_edge_bits() {
    let mut rng = StdSource::from_seed(1234);
    let t = u8::gen_prime(&mut rng, 2);
    assert!(t == 2 || t == 3);
    assert_eq!(u8::gen_prime(&mut rng, 8).leading_zeros(), 0);
    assert_eq!(u16::gen_prime(&mut rng, 16).leading_zeros(), 0);
    assert_eq!(u32::gen_prime(&mut rng, 32).leading_zeros(), 0);
    assert_eq!(u64::gen_prime(&mut rng, 64).leading_zeros(), 0);
    let w = U256::gen_prime(&mut rng, 256);
    assert_eq!(u256_to_biguint(w).bits(), 256);
    let g = BigUint::gen_prime(&mut rng, 2);
    assert!(g == BigUint::from(2u32) || g == BigUint::from(3u32));
    let p64 = u64::gen_prime(&mut rng, 40);
    assert!(num_prime::nt_funcs::is_prime64(p64));
    let pb = BigUint::gen_prime(&mut rng, 300);
    assert!(glass_pumpkin::prime::strong_check(&pb));
}

#[test]
fn test_u256_biguint_conversion() {
    for x in [0u64, 1, 2, 101, 0xffff_ffff, 0x1_0000_0000, u64::MAX] {
        assert_eq!(u256_to_biguint(U256::from_u64(x)), BigUint::from(x));
    }
    let mut rng = StdSource::from_seed(5);
    let w = U256::gen_prime(&mut rng, 90);
    let b = u256_to_biguint(w);
    assert_eq!(b.bits(), 90);
    assert!(glass_pumpkin::prime::strong_check(&b));
}

#[test]
fn test_trial_division_checker() {
    for n in 0u32..2000 {
        assert_eq!(check_prime_u32(n), num_prime::nt_funcs::is_prime64(n as u64));
    }
}
