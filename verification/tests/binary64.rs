use solana_nova_sniper::binary64::Binary64;

fn b(x: f64) -> Binary64 {
    Binary64::from_bits(x.to_bits())
}

fn f(x: Binary64) -> f64 {
    f64::from_bits(x.bits)
}

fn agrees(got: Binary64, want: f64) -> bool {
    if want.is_nan() {
        got.is_nan()
    } else {
        got.bits == want.to_bits()
    }
}

/// A spread of ordinary, extreme and special numbers, followed by generated patterns.
fn samples() -> Vec<f64> {
    let mut out = vec![
        0.0,
        -0.0,
        1.0,
        -1.0,
        0.5,
        0.1,
        0.3,
        0.7,
        2.0,
        3.0,
        100.0,
        30.0,
        1e9,
        0.001,
        f64::EPSILON,
        f64::MIN_POSITIVE,
        f64::MAX,
        f64::MIN,
        f64::INFINITY,
        f64::NEG_INFINITY,
        f64::NAN,
        f64::from_bits(1),
        f64::from_bits(0x000f_ffff_ffff_ffff),
        9007199254740993.0,
        1.0 + f64::EPSILON,
        1e-308,
        1e308,
    ];
    let mut state: u64 = 0x9e37_79b9_7f4a_7c15;
    for i in 0..160 {
        state = state.wrapping_mul(6364136223846793005).wrapping_add(1442695040888963407);
        let bits = state ^ (state >> 29);
        out.push(f64::from_bits(bits));
        // The same significand near one, so that sums meet on close exponents.
        let near = (bits & 0x800f_ffff_ffff_ffff) | ((1023 + (i % 70)) << 52);
        out.push(f64::from_bits(near));
    }
    out
}

#[test]
fn arithmetic_agrees_with_the_processor() {
    let xs = samples();
    for &x in &xs {
        for &y in &xs {
            assert!(agrees(b(x).plus(b(y)), x + y), "{x:e} + {y:e}");
            assert!(agrees(b(x).minus(b(y)), x - y), "{x:e} - {y:e}");
            assert!(agrees(b(x).times(b(y)), x * y), "{x:e} * {y:e}");
            assert!(agrees(b(x).over(b(y)), x / y), "{x:e} / {y:e}");
        }
    }
}

#[test]
fn comparisons_agree_with_the_processor() {
    let xs = samples();
    for &x in &xs {
        for &y in &xs {
            assert_eq!(b(x).lt(b(y)), x < y);
            assert_eq!(b(x).le(b(y)), x <= y);
            assert_eq!(b(x) == b(y), x == y);
            let hi = f(b(x).max_of(b(y)));
            let lo = f(b(x).min_of(b(y)));
            assert!(hi == x.max(y) || (hi.is_nan() && x.max(y).is_nan()));
            assert!(lo == x.min(y) || (lo.is_nan() && x.min(y).is_nan()));
        }
    }
}

#[test]
fn rounding_to_an_integer_agrees_with_the_processor() {
    for &x in &samples() {
        assert_eq!(b(x).round_to_u64(), x.round() as u64, "{x:e}");
        assert_eq!(b(x * 1e3).round_to_u64(), (x * 1e3).round() as u64, "{x:e}");
    }
    for k in 0..2000u64 {
        let x = k as f64 / 8.0;
        assert_eq!(b(x).round_to_u64(), x.round() as u64, "{x:e}");
    }
    assert_eq!(b(0.49999999999999994).round_to_u64(), 0);
    assert_eq!(b(1.8446744073709552e19).round_to_u64(), u64::MAX);
    assert_eq!(b(1.8446744073709550e19).round_to_u64(), 18446744073709549568);
}
