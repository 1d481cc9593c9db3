use prev_prime::is_prime;
use prev_prime::prev_prime;

#[test]
fn prev_prime_of_zero_is_zero() {
    assert_eq!(prev_prime(0), 0);
}

#[test]
fn prev_prime_of_one_is_zero() {
    assert_eq!(prev_prime(1), 0);
}

#[test]
fn prev_prime_of_two_is_zero() {
    assert_eq!(prev_prime(2), 0);
}

#[test]
fn prev_prime_of_three_is_two() {
    assert_eq!(prev_prime(3), 2);
}

#[test]
fn prev_prime_of_four_is_three() {
    assert_eq!(prev_prime(4), 3);
}

#[test]
fn prev_prime_of_ten_is_seven() {
    assert_eq!(prev_prime(10), 7);
}

#[test]
fn prev_prime_of_hundred_is_ninety_seven() {
    assert_eq!(prev_prime(100), 97);
}

#[test]
fn prev_prime_of_seventeen_is_thirteen() {
    assert_eq!(prev_prime(17), 13);
}

#[test]
fn prev_prime_across_larger_bounds() {
    assert_eq!(prev_prime(10_000), 9_973);
    assert_eq!(prev_prime(1_000_000), 999_983);
    // A wide prime gap: nothing between 113 and 127.
    assert_eq!(prev_prime(127), 113);
}

// Trial division by every candidate from 2 up, squares inclusive, no
// evenness shortcut: an independent primality reference for the tests.
fn reference_is_prime(n: u64) -> bool {
    if n < 2 {
        return false;
    }
    let mut d = 2u64;
    while d * d <= n {
        if n % d == 0 {
            return false;
        }
        d += 1;
    }
    true
}

#[test]
fn primality_agrees_with_reference_up_to_ten_thousand() {
    for n in 0u64..=10_000 {
        assert_eq!(is_prime(n), reference_is_prime(n), "disagreement at {}", n);
    }
}

#[test]
fn primality_of_known_values() {
    assert!(!is_prime(0));
    assert!(!is_prime(1));
    assert!(is_prime(2));
    assert!(is_prime(3));
    assert!(!is_prime(4));
    assert!(is_prime(5));
    assert!(is_prime(7));
    // Squares of primes exercise the inclusive square bound.
    assert!(!is_prime(9));
    assert!(!is_prime(25));
    assert!(!is_prime(49));
    assert!(!is_prime(121));
    assert!(is_prime(2_147_483_647));
    assert!(is_prime(1_000_000_007));
    assert!(!is_prime(1_000_000_007 * 3));
}

#[test]
fn result_is_largest_prime_below_bound() {
    for n in 3u64..=2_000 {
        let r = prev_prime(n);
        assert!(r < n);
        assert!(is_prime(r));
        for p in (r + 1)..n {
            assert!(!is_prime(p));
        }
    }
}

#[test]
fn nonzero_result_is_always_prime() {
    for n in 0u64..=2_000 {
        let r = prev_prime(n);
        if r != 0 {
            assert!(is_prime(r));
            assert!(n > 2);
        } else {
            assert!(n <= 2);
        }
    }
}
