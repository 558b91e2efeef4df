use gcd_service::buffer::new_pixel_buffer;
use gcd_service::kernel::gcd;

#[test]
fn test_gcd() {
    assert_eq!(gcd(14, 15), 1);
    assert_eq!(gcd(2 * 3 * 11 * 17, 3 * 7 * 11 * 13 * 19), 3 * 11);
}

#[test]
fn main_test_gcd() {
    assert_eq!(gcd(14, 15), 1);
    assert_eq!(gcd(2 * 3 * 11 * 17, 3 * 7 * 11 * 13 * 19), 3 * 11);
}

#[test]
fn gcd_is_commutative_on_examples() {
    assert_eq!(gcd(12, 18), gcd(18, 12));
    assert_eq!(gcd(14, 15), gcd(15, 14));
    assert_eq!(gcd(1, 987654321), gcd(987654321, 1));
}

#[test]
fn gcd_is_associative_on_examples() {
    assert_eq!(gcd(gcd(12, 18), 8), gcd(12, gcd(18, 8)));
    assert_eq!(gcd(gcd(2 * 3 * 5, 3 * 5 * 7), 5 * 7 * 11), 5);
}

#[test]
fn gcd_of_equal_operands() {
    assert_eq!(gcd(7, 7), 7);
    assert_eq!(gcd(1, 1), 1);
    assert_eq!(gcd(u64::MAX, u64::MAX), u64::MAX);
}

#[test]
fn gcd_divides_both_and_is_greatest() {
    let d = gcd(12, 18);
    assert_eq!(d, 6);
    assert_eq!(12 % d, 0);
    assert_eq!(18 % d, 0);
    for e in (d + 1)..=12 {
        assert!(!(12 % e == 0 && 18 % e == 0));
    }
}

#[test]
fn gcd_of_coprime_operands_is_one() {
    assert_eq!(gcd(35, 64), 1);
}

#[test]
fn gcd_with_large_operands() {
    assert_eq!(gcd(u64::MAX, 1), 1);
    assert_eq!(gcd(1 << 40, 1 << 20), 1 << 20);
}

#[test]
fn pixel_buffer_is_zero_filled() {
    let buf = new_pixel_buffer(2, 3);
    assert_eq!(buf.len(), 6);
    assert!(buf.iter().all(|b| *b == 0));
}

#[test]
fn pixel_buffer_may_be_empty() {
    let buf = new_pixel_buffer(0, 1024);
    assert_eq!(buf.len(), 0);
}
