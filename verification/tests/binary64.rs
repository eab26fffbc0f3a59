use fast_transcript::binary64::Binary64;

fn sample_values() -> Vec<f64> {
    let mut values = vec![
        0.0,
        -0.0,
        0.4,
        0.5,
        0.49999999999999994,
        1.0,
        1.5,
        2.5,
        59.999,
        59.9995,
        65.9,
        120.0,
        0.0005,
        0.0015,
        0.0025,
        1e-300,
        f64::MIN_POSITIVE,
        f64::MIN_POSITIVE / 2.0,
        5e-324,
        3599.9999,
        86399.5,
        1e15,
        1.8446744073709552e19,
        1e300,
        f64::MAX,
        -1.0,
        -0.4,
        f64::INFINITY,
        f64::NEG_INFINITY,
        f64::NAN,
    ];
    // A spread of magnitudes and fractions.
    let mut x: u64 = 0x9E37_79B9_7F4A_7C15;
    for _ in 0..2000 {
        x ^= x << 13;
        x ^= x >> 7;
        x ^= x << 17;
        let mantissa = (x >> 11) as f64 / (1u64 << 53) as f64;
        let scale = 10f64.powi(((x >> 3) % 24) as i32 - 6);
        values.push(mantissa * scale);
        values.push(f64::from_bits(x));
    }
    values
}

#[test]
fn whole_seconds_match_f64_floor() {
    for v in sample_values() {
        let expected = if v.is_finite() { v.max(0.0).floor() as u64 } else { 0 };
        assert_eq!(Binary64 { bits: v.to_bits() }.whole_seconds(), expected, "value {v:e}");
    }
}

#[test]
fn millis_match_f64_rounding() {
    for v in sample_values() {
        let expected = if v.is_finite() { (v.max(0.0) * 1000.0).round() as u64 } else { 0 };
        assert_eq!(Binary64 { bits: v.to_bits() }.millis(), expected, "value {v:e}");
    }
}

#[test]
fn samples_match_f64_rounding() {
    for rate in [0usize, 1, 8_000, 16_000, 44_100, 48_000, 12_345_679] {
        for v in sample_values() {
            let expected = (v * rate as f64).round() as usize;
            assert_eq!(
                Binary64 { bits: v.to_bits() }.samples_at_rate(rate),
                expected,
                "value {v:e} at rate {rate}"
            );
        }
    }
}

#[test]
fn comparisons_match_f64() {
    let values = sample_values();
    for (i, a) in values.iter().enumerate().take(200) {
        for b in values.iter().skip(i % 7).step_by(13).take(40) {
            let x = Binary64 { bits: a.to_bits() };
            let y = Binary64 { bits: b.to_bits() };
            assert_eq!(x.lt(y), a < b, "{a:e} < {b:e}");
            assert_eq!(x.le(y), a <= b, "{a:e} <= {b:e}");
            assert_eq!(x.ieee_equals(y), a == b, "{a:e} == {b:e}");
            // Equal values (the two zeros) and NaN payloads are left open by std.
            let (lo, hi) = (f64::from_bits(x.min(y).bits), f64::from_bits(x.max(y).bits));
            if a.is_nan() && b.is_nan() {
                assert!(lo.is_nan() && hi.is_nan());
            } else if a == b {
                assert!(lo == *a && hi == *a);
            } else {
                assert_eq!(lo.to_bits(), a.min(*b).to_bits(), "{a:e} min {b:e}");
                assert_eq!(hi.to_bits(), a.max(*b).to_bits(), "{a:e} max {b:e}");
            }
        }
    }
}
