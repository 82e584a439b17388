use scripteval::number::{equal, from_int, is_nan, is_zero, less, negated};

const SAMPLES: [f32; 14] = [
    0.0,
    -0.0,
    1.0,
    -1.0,
    36.2,
    -36.2,
    1.0e-40,
    -1.0e-40,
    f32::MAX,
    f32::MIN,
    f32::INFINITY,
    f32::NEG_INFINITY,
    f32::NAN,
    16_777_216.0,
];

#[test]
fn widening_agrees_with_the_hardware() {
    let mut cases: Vec<i32> = vec![
        0,
        1,
        -1,
        2,
        3,
        -3,
        255,
        8_388_607,
        8_388_608,
        16_777_215,
        16_777_216,
        16_777_217,
        16_777_218,
        16_777_219,
        -16_777_217,
        33_554_431,
        33_554_433,
        33_554_434,
        33_554_435,
        2_147_483_583,
        2_147_483_584,
        2_147_483_520,
        1_073_741_823,
        i32::MAX,
        i32::MIN,
        i32::MIN + 1,
        i32::MIN + 64,
        i32::MIN + 65,
    ];
    let mut x: i32 = 1;
    for _ in 0..2000 {
        x = x.wrapping_mul(1_103_515_245).wrapping_add(12_345);
        cases.push(x);
        cases.push(x >> 5);
        cases.push(x >> 9);
    }
    for i in cases {
        assert_eq!(from_int(i), (i as f32).to_bits(), "{}", i);
    }
}

#[test]
fn widening_exact_values() {
    assert_eq!(from_int(0), 0);
    assert_eq!(from_int(1), 0x3f80_0000);
    assert_eq!(from_int(-2), 0xc000_0000);
    assert_eq!(from_int(16_777_217), 0x4b80_0000);
    assert_eq!(from_int(16_777_219), 0x4b80_0002);
    assert_eq!(from_int(i32::MAX), 0x4f00_0000);
    assert_eq!(from_int(i32::MIN), 0xcf00_0000);
}

#[test]
fn equality_agrees_with_the_hardware() {
    for a in SAMPLES {
        for b in SAMPLES {
            assert_eq!(equal(a.to_bits(), b.to_bits()), a == b, "{} {}", a, b);
        }
    }
}

#[test]
fn order_agrees_with_the_hardware() {
    for a in SAMPLES {
        for b in SAMPLES {
            assert_eq!(less(a.to_bits(), b.to_bits()), a < b, "{} {}", a, b);
        }
    }
}

#[test]
fn negation_flips_the_sign() {
    for a in SAMPLES {
        assert_eq!(negated(a.to_bits()), (-a).to_bits());
    }
    assert_eq!(negated(0), 0x8000_0000);
    assert_eq!(negated(0x8000_0000), 0);
}

#[test]
fn zeros_and_nans_are_told_apart() {
    for a in SAMPLES {
        assert_eq!(is_zero(a.to_bits()), a == 0.0);
        assert_eq!(is_nan(a.to_bits()), a.is_nan());
    }
    assert!(is_nan(0x7f80_0001));
    assert!(is_nan(0xffff_ffff));
    assert!(!is_nan(0x7f80_0000));
    assert!(!is_nan(0xff80_0000));
}
