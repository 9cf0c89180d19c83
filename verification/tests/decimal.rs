use solana_nova_sniper::binary64::Binary64;
use solana_nova_sniper::decimal::push_decimal;

fn fixed(x: f64, places: u32) -> String {
    let mut out = String::new();
    Binary64::from_bits(x.to_bits()).push_fixed(&mut out, places);
    out
}

#[test]
fn whole_numbers_in_decimal() {
    for n in [0, 1, 9, 10, 99, 100, 12345, 1_000_000_007, u64::MAX] {
        let mut out = "x".to_string();
        push_decimal(&mut out, n);
        assert_eq!(out, format!("x{n}"));
    }
}

#[test]
fn fixed_decimals_agree_with_the_formatter() {
    let mut samples = vec![
        0.0,
        -0.0,
        0.1,
        0.125,
        0.375,
        0.5,
        1.0,
        1.005,
        2.5,
        0.9995,
        -1.25,
        99.995,
        100.0,
        120.0,
        1e15,
        1e22,
        1e-7,
        5e-324,
        f64::MAX,
        f64::MIN_POSITIVE,
        f64::INFINITY,
        f64::NEG_INFINITY,
        f64::NAN,
    ];
    let mut seed: u64 = 0x1234_5678_9abc_def1;
    for _ in 0..300 {
        seed ^= seed << 13;
        seed ^= seed >> 7;
        seed ^= seed << 17;
        samples.push((seed >> 20) as f64 / 1e6);
        samples.push(f64::from_bits((seed & 0x000f_ffff_ffff_ffff) | 0x3fb0_0000_0000_0000));
    }
    for x in samples {
        assert_eq!(fixed(x, 2), format!("{x:.2}"));
        assert_eq!(fixed(x, 3), format!("{x:.3}"));
    }
}
