use budget::money::{CentsAmount, SignedCentsAmount};

fn cents_of(parts: &[CentsAmount]) -> Vec<u64> {
    parts.iter().map(|c| c.cents()).collect()
}

#[test]
fn subdiv_equal_weights_gives_remainder_to_first_parts() {
    let parts = CentsAmount::new(10).subdiv(vec![1, 1, 1]);
    assert_eq!(cents_of(&parts), vec![4, 3, 3]);
}

#[test]
fn subdiv_parts_sum_to_amount() {
    let parts = CentsAmount::new(1001).subdiv(vec![3, 1, 2, 7]);
    assert_eq!(parts.len(), 4);
    assert_eq!(parts.iter().map(|c| c.cents()).sum::<u64>(), 1001);
    // floors: 231, 77, 154, 539 (sum 1001)
    assert_eq!(cents_of(&parts), vec![231, 77, 154, 539]);
}

#[test]
fn subdiv_remainder_is_positional() {
    // floors 3, 3, 3 of 10 with weights 1, 1, 1; 7 with 2, 2, 3: 2, 2, 3
    let parts = CentsAmount::new(7).subdiv(vec![2, 2, 3]);
    assert_eq!(cents_of(&parts), vec![2, 2, 3]);
    let parts = CentsAmount::new(5).subdiv(vec![1, 1, 1, 1]);
    assert_eq!(cents_of(&parts), vec![2, 1, 1, 1]);
}

#[test]
fn subdiv_large_amount_does_not_overflow() {
    let parts = CentsAmount::new(u64::MAX).subdiv(vec![usize::MAX, 1]);
    assert_eq!(parts.iter().map(|c| c.cents() as u128).sum::<u128>(), u64::MAX as u128);
}

#[test]
fn digits_are_least_significant_first() {
    assert_eq!(CentsAmount::new(1203).digits(), vec![3, 0, 2, 1]);
    assert!(CentsAmount::new(0).digits().is_empty());
}

#[test]
fn exact_formatting() {
    assert_eq!(CentsAmount::new(0).as_string_exact(false), "0.00");
    assert_eq!(CentsAmount::new(5).as_string_exact(false), "0.05");
    assert_eq!(CentsAmount::new(123456).as_string_exact(true), "1,234.56");
    assert_eq!(CentsAmount::new(123456).as_string_exact(false), "1234.56");
    assert_eq!(CentsAmount::new(123456789).as_string_exact(true), "1,234,567.89");
}

#[test]
fn exact_formatting_has_one_point_before_two_digits() {
    for c in [0u64, 7, 99, 100, 123456, 98765432101] {
        let s = CentsAmount::new(c).as_string_exact(true);
        assert_eq!(s.matches('.').count(), 1);
        assert_eq!(s.find('.'), Some(s.len() - 3));
    }
}

#[test]
fn precision_formatting() {
    assert_eq!(CentsAmount::new(123456789).as_string_precision(3, false), "1.23M");
    assert_eq!(CentsAmount::new(123456789).as_string_precision(4, false), "1234k");
    assert_eq!(CentsAmount::new(123456789).as_string_precision(5, false), "1234.5k");
    assert_eq!(CentsAmount::new(123456).as_string_precision(4, false), "1234");
    assert_eq!(CentsAmount::new(123456).as_string_precision(6, true), "1,234.56");
    assert_eq!(CentsAmount::new(123456789012).as_string_precision(1, false), "1G");
}

#[test]
fn width_formatting() {
    assert_eq!(CentsAmount::new(123456789).as_string_width(6, false), "1234k");
    assert_eq!(CentsAmount::new(123456789).as_string_width(10, false), "1234567.89");
    assert_eq!(CentsAmount::new(123456789).as_string_width(4, false), "1.2M");
    assert_eq!(CentsAmount::new(123456789).as_string_width(9, false), "1234567.8");
    assert_eq!(CentsAmount::new(123456789).as_string_width_padded(8, false), " 1234567");
}

#[test]
fn width_formatting_fits_width() {
    for c in [1u64, 999, 123456, 123456789, 987654321098] {
        let amount = CentsAmount::new(c);
        let minimal = amount.as_string_precision(1, false).len();
        for w in minimal..16 {
            assert!(amount.as_string_width(w, false).len() <= w);
        }
    }
}

#[test]
fn signed_formatting() {
    assert_eq!(SignedCentsAmount::new(-500).as_string_exact(false), "-5.00");
    assert_eq!(SignedCentsAmount::new(500).as_string_exact(false), "+5.00");
    assert_eq!(SignedCentsAmount::new(0).as_string_exact(false), "0.00");
    assert_eq!(SignedCentsAmount::new(-123456789).as_string_width(6, false), "-1234k");
    assert_eq!(SignedCentsAmount::new(123456).as_string_precision(2, true), "+1.2k");
    assert_eq!(SignedCentsAmount::new(-5).as_string_width_padded(8, false), "   -0.05");
}

#[test]
fn signed_conversions() {
    let a = CentsAmount::new(1234);
    assert_eq!(SignedCentsAmount::positive(a).cents(), 1234);
    assert_eq!(SignedCentsAmount::negative(a).cents(), -1234);
    assert_eq!(SignedCentsAmount::new(-77).abs().cents(), 77);
    assert_eq!(SignedCentsAmount::new(i64::MIN).abs().cents(), 1u64 << 63);
    assert_eq!(SignedCentsAmount::new(-7).plus(SignedCentsAmount::new(10)).cents(), 3);
}

#[test]
fn cents_arithmetic() {
    let a = CentsAmount::new(1000);
    assert_eq!(a.plus(CentsAmount::new(5)).cents(), 1005);
    assert_eq!(a.minus(CentsAmount::new(5)).cents(), 995);
    assert_eq!(a.divided(3).cents(), 333);
}

#[test]
fn subdiv_equal_weights_spreads_remainder() {
    let parts = CentsAmount::new(23).subdiv(vec![2, 2, 2, 2, 2]);
    assert_eq!(cents_of(&parts), vec![5, 5, 5, 4, 4]);
    let parts = CentsAmount::new(20).subdiv(vec![7, 7, 7, 7]);
    assert_eq!(cents_of(&parts), vec![5, 5, 5, 5]);
}

#[test]
fn width_formatting_takes_most_digits_that_fit() {
    assert_eq!(CentsAmount::new(12345678).as_string_width(4, false), "123k");
    assert_eq!(CentsAmount::new(1234567890123).as_string_width(6, false), "12345M");
    assert!(CentsAmount::new(1234567890123).width_writable_check(6, false));
    assert!(!CentsAmount::new(12345678901234).width_writable_check(2, false));
    assert_eq!(SignedCentsAmount::new(-12345678).as_string_width(5, false), "-123k");
}
