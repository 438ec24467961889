use gcd::gcd;
use gcd::gcd_reduce;

#[test]
fn test_gcd() {
    assert_eq!(gcd(14, 15), 1);

    assert_eq!(gcd(2 * 3 * 5 * 11 * 17, 3 * 7 * 11 * 13 * 19), 3 * 11);
}

#[test]
fn gcd_commutes() {
    assert_eq!(gcd(12, 18), gcd(18, 12));
    assert_eq!(gcd(330, 2431), gcd(2431, 330));
    assert_eq!(gcd(1, 7), gcd(7, 1));
}

#[test]
fn gcd_of_equal_numbers() {
    assert_eq!(gcd(1, 1), 1);
    assert_eq!(gcd(9, 9), 9);
    assert_eq!(gcd(u64::MAX, u64::MAX), u64::MAX);
}

#[test]
fn gcd_with_one() {
    assert_eq!(gcd(97, 1), 1);
    assert_eq!(gcd(1, 97), 1);
    assert_eq!(gcd(u64::MAX, 1), 1);
}

#[test]
fn gcd_divides_both_and_is_greatest() {
    let a: u64 = 24;
    let b: u64 = 36;
    let d = gcd(a, b);
    assert_eq!(d, 12);
    assert_eq!(a % d, 0);
    assert_eq!(b % d, 0);
    for e in (d + 1)..=a {
        assert!(a % e != 0 || b % e != 0);
    }
}

#[test]
fn gcd_of_large_values() {
    assert_eq!(gcd(u64::MAX, u64::MAX - 1), 1);
    assert_eq!(gcd(1 << 63, 1 << 62), 1 << 62);
}

#[test]
fn reduce_single_element() {
    assert_eq!(gcd_reduce(&vec![7]), 7);
    assert_eq!(gcd_reduce(&vec![u64::MAX]), u64::MAX);
}

#[test]
fn reduce_concrete_sequences() {
    assert_eq!(gcd_reduce(&vec![14, 15]), 1);
    assert_eq!(gcd_reduce(&vec![330, 2431]), 11);
    assert_eq!(gcd_reduce(&vec![2, 4, 6]), 2);
    assert_eq!(gcd_reduce(&vec![5610, 57057]), 33);
}

#[test]
fn reduce_is_order_independent() {
    assert_eq!(gcd_reduce(&vec![6, 10, 15]), 1);
    assert_eq!(gcd_reduce(&vec![10, 15, 6]), 1);
    assert_eq!(gcd_reduce(&vec![15, 6, 10]), 1);
    assert_eq!(gcd_reduce(&vec![12, 30, 18]), gcd_reduce(&vec![18, 12, 30]));
    assert_eq!(gcd_reduce(&vec![330, 2431]), gcd_reduce(&vec![2431, 330]));
}
