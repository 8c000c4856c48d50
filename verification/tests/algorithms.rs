use computer_algebra::extended_euclidean_algorithm;
use computer_algebra::gcd;

#[test]
fn gcd_test() {
    assert_eq!(gcd(3, 5), 1);
    assert_eq!(gcd(4, 6), 2);
    assert_eq!(gcd(34, 55), 1);
    assert_eq!(gcd(0, 0), 0);
    assert_eq!(gcd(7, 0), 7);
    assert_eq!(gcd(0, 42), 42);
}

#[test]
fn eea_test() {
    let f = |a: i64, b: i64| {
        let (g, x, y) = extended_euclidean_algorithm(a, b);
        assert_eq!(a * x + b * y, g);
    };
    f(5, 8);
    f(45645, 43276);
    f(21465, 31497);
    f(214654, 312497);
}

#[test]
fn gcd_divides_both_arguments() {
    let pairs: [(i64, i64); 6] = [(12, 18), (35, 21), (1, 99), (100, 100), (17, 0), (270, 192)];
    for &(a, b) in pairs.iter() {
        let g: i64 = gcd(a, b);
        assert!(g > 0);
        assert_eq!(a % g, 0);
        assert_eq!(b % g, 0);
    }
}

#[test]
fn gcd_no_larger_common_divisor() {
    let a: i64 = 12;
    let b: i64 = 18;
    let g: i64 = gcd(a, b);
    assert_eq!(g, 6);
    let mut d: i64 = g + 1;
    while d <= b {
        assert!(!(a % d == 0 && b % d == 0));
        d += 1;
    }
}

#[test]
fn gcd_negative_inputs() {
    assert_eq!(gcd(-4, 6), 2);
    assert_eq!(gcd(4, -6), -2);
    assert_eq!(gcd(-4, -6), -2);
    assert_eq!(gcd(-3, 5), -1);
}

#[test]
fn gcd_extreme_values() {
    assert_eq!(gcd(i64::MIN, 1), 1);
    assert_eq!(gcd(i64::MIN, 3), 1);
    assert_eq!(gcd(i64::MIN, 0), i64::MIN);
    assert_eq!(gcd(0, i64::MIN), i64::MIN);
    assert_eq!(gcd(i64::MIN, i64::MIN), i64::MIN);
}

#[test]
fn eea_exact_coefficients() {
    assert_eq!(extended_euclidean_algorithm(5, 8), (1, -3, 2));
    assert_eq!(extended_euclidean_algorithm(4, 6), (2, -1, 1));
}

#[test]
fn eea_zero_inputs() {
    assert_eq!(extended_euclidean_algorithm(7, 0), (7, 1, 0));
    assert_eq!(extended_euclidean_algorithm(0, 7), (7, 0, 1));
    assert_eq!(extended_euclidean_algorithm(0, 0), (0, 1, 0));
}

#[test]
fn eea_agrees_with_gcd() {
    let pairs: [(i64, i64); 7] =
        [(5, 8), (45645, 43276), (21465, 31497), (214654, 312497), (-4, 6), (4, -6), (-9, -12)];
    for &(a, b) in pairs.iter() {
        let (g, x, y) = extended_euclidean_algorithm(a, b);
        assert_eq!(a * x + b * y, g);
        assert_eq!(g, gcd(a, b));
    }
}

#[test]
fn repeated_calls_agree() {
    let pairs: [(i64, i64); 4] = [(34, 55), (0, 42), (214654, 312497), (-4, 6)];
    for &(a, b) in pairs.iter() {
        assert_eq!(gcd(a, b), gcd(a, b));
        assert_eq!(extended_euclidean_algorithm(a, b), extended_euclidean_algorithm(a, b));
    }
}
