use mandelbrot::natural::Natural;

fn same(a: &Natural, b: &Natural) -> bool {
    a.le(b) && b.le(a)
}

#[test]
fn one_is_the_empty_product() {
    assert!(same(&Natural::one(), &Natural::power(7, 0)));
    assert!(same(&Natural::one(), &Natural::power(1, 255)));
    assert!(same(&Natural::one().times(1), &Natural::one()));
}

#[test]
fn products_agree_with_powers() {
    assert!(same(&Natural::power(2, 10), &Natural::one().times(1024)));
    assert!(same(&Natural::power(3, 5), &Natural::one().times(243)));
    assert!(same(&Natural::power(10, 3).times(1000), &Natural::power(10, 6)));
    assert!(same(&Natural::power(2, 64), &Natural::one().times(1u128 << 64)));
    assert!(same(&Natural::power(2, 96), &Natural::power(1u128 << 32, 3)));
    assert!(same(&Natural::power(1u128 << 64, 255), &Natural::power(2, 16320)));
}

#[test]
fn times_zero_is_zero() {
    let zero = Natural::one().times(0);
    assert!(zero.le(&Natural::one()));
    assert!(!Natural::one().le(&zero));
    assert!(same(&zero, &Natural::power(12345, 9).times(0)));
    assert!(same(&zero.times(77), &zero));
}

#[test]
fn order_is_by_value() {
    let small = Natural::power(2, 95);
    let large = Natural::power(2, 96);
    assert!(small.le(&large));
    assert!(!large.le(&small));
    assert!(large.le(&large));
    let a = Natural::power(26, 251);
    let b = Natural::power(25, 255);
    let c = Natural::power(26, 252);
    assert!(a.le(&b));
    assert!(!c.le(&b));
    assert!(Natural::one().times(0xFFFF_FFFF).le(&Natural::one().times(0x1_0000_0000)));
    assert!(!Natural::one().times(0x1_0000_0000).le(&Natural::one().times(0xFFFF_FFFF)));
    assert!(Natural::one().times(0x1_0000_0001).le(&Natural::one().times(0x2_0000_0000)));
    assert!(!Natural::one().times(0x2_0000_0000).le(&Natural::one().times(0x1_FFFF_FFFF)));
}

#[test]
fn the_largest_factor_is_taken() {
    let top: u128 = 0xFFFF_FFFF_FFFF_FFFF_FFFF_FFFF;
    let square = Natural::one().times(top).times(top);
    assert!(square.le(&Natural::power(2, 192)));
    assert!(!Natural::power(2, 192).le(&square));
    assert!(Natural::power(2, 191).le(&square));
    assert!(same(&square, &Natural::power(top, 2)));
}
