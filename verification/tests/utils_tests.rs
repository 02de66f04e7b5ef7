use ref_exchange::u256::U256;
use ref_exchange::utils::{integer_sqrt, u128_ratio, nano_to_sec, to_nano, check_token_duplicates};

fn u(x: u128) -> U256 {
    U256::from_u128(x)
}

#[test]
fn test_sqrt() {
    assert!(integer_sqrt(u(0)).eq(&u(0)));
    assert!(integer_sqrt(u(4)).eq(&u(2)));
    assert!(integer_sqrt(u(1_516_156_330_329u128)).eq(&u(1_231_323)));
}

#[test]
fn sqrt_of_non_squares_rounds_down() {
    assert_eq!(integer_sqrt(u(1)).as_u128(), 1);
    assert_eq!(integer_sqrt(u(2)).as_u128(), 1);
    assert_eq!(integer_sqrt(u(3)).as_u128(), 1);
    assert_eq!(integer_sqrt(u(8)).as_u128(), 2);
    assert_eq!(integer_sqrt(u(99)).as_u128(), 9);
    let big = u(u128::MAX).mul(&u(u128::MAX));
    assert_eq!(integer_sqrt(big).as_u128(), u128::MAX);
}

#[test]
fn u256_arithmetic_matches_wide_values() {
    let a = u(u128::MAX);
    let p = a.mul(&a);
    // (2^128 - 1)^2 / (2^128 - 1) == 2^128 - 1
    assert!(p.div(&a).eq(&a));
    assert!(a.checked_mul(&u(2)).is_some());
    assert!(p.checked_mul(&u(2)).is_none());
    assert!(p.checked_mul(&p).is_none());
    let s = p.add(&a).add(&a); // 2^256 - 1
    assert!(s.eq(&U256::max_value()));
    assert!(s.checked_add(&u(1)).is_none());
    let (w, wrapped) = s.overflowing_add(&u(2));
    assert!(wrapped && w.eq(&u(1)));
    let (w2, wrapped2) = u(1).overflowing_sub(&u(2));
    assert!(wrapped2 && w2.eq(&U256::max_value()));
    assert!(u(7).half().eq(&u(3)));
    assert_eq!(u(1_000_000).div(&u(7)).as_u128(), 142_857);
    assert!(u(5).checked_div(&u(0)).is_none());
    assert!(u(5).checked_sub(&u(6)).is_none());
    assert!(u(5).lt(&u(6)) && u(6).le(&u(6)) && !u(7).le(&u(6)));
    assert!(p.to_u128().is_none());
}

#[test]
fn u128_ratio_uses_wide_intermediate() {
    assert_eq!(u128_ratio(u128::MAX, 3, 4), u128::MAX / 4 * 3 + (u128::MAX % 4) * 3 / 4);
    assert_eq!(u128_ratio(100, 2500, 10_000), 25);
}

#[test]
fn time_conversions() {
    assert_eq!(nano_to_sec(1_500_000_000), 1);
    assert_eq!(to_nano(3), 3_000_000_000);
    // seconds beyond 32 bits wrap, as a cast does
    assert_eq!(nano_to_sec((1u64 << 32) * 1_000_000_000 + 5_000_000_000), 5);
}

#[test]
fn duplicates_are_detected() {
    let a = vec!["a.near".to_string(), "b.near".to_string()];
    assert!(check_token_duplicates(&a));
    let b = vec!["a.near".to_string(), "b.near".to_string(), "a.near".to_string()];
    assert!(!check_token_duplicates(&b));
}
