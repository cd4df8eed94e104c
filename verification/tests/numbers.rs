//! Conversion between the two floating-point widths, held against the machine's own.

use compactr::codec::ieee::{narrow, widen};
use compactr::{Decoder, Encoder, SchemaType, Value};

fn narrow_by_machine(bits: u64) -> u32 {
    (f64::from_bits(bits) as f32).to_bits()
}

fn widen_by_machine(bits: u32) -> u64 {
    f64::from(f32::from_bits(bits)).to_bits()
}

fn next(state: &mut u64) -> u64 {
    *state = state.wrapping_mul(6364136223846793005).wrapping_add(1442695040888963407);
    let mut x = *state;
    x ^= x >> 33;
    x = x.wrapping_mul(0xff51afd7ed558ccd);
    x ^= x >> 29;
    x
}

#[test]
fn widen_exact_values() {
    assert_eq!(widen(1.0f32.to_bits()), 1.0f64.to_bits());
    assert_eq!(widen(0.0f32.to_bits()), 0.0f64.to_bits());
    assert_eq!(widen((-0.0f32).to_bits()), (-0.0f64).to_bits());
    assert_eq!(widen(3.5f32.to_bits()), 3.5f64.to_bits());
    assert_eq!(widen(f32::INFINITY.to_bits()), f64::INFINITY.to_bits());
    assert_eq!(widen(f32::NEG_INFINITY.to_bits()), f64::NEG_INFINITY.to_bits());
    assert_eq!(widen(f32::MAX.to_bits()), f64::from(f32::MAX).to_bits());
    assert_eq!(widen(f32::MIN_POSITIVE.to_bits()), f64::from(f32::MIN_POSITIVE).to_bits());
    // The smallest and the largest subnormal numbers.
    assert_eq!(widen(1), widen_by_machine(1));
    assert_eq!(widen(0x007F_FFFF), widen_by_machine(0x007F_FFFF));
    assert_eq!(widen(0x8000_0001), widen_by_machine(0x8000_0001));
    assert!(f64::from_bits(widen(f32::NAN.to_bits())).is_nan());
}

#[test]
fn widen_agrees_with_the_machine() {
    let mut state = 7u64;
    for _ in 0..200_000 {
        let bits = next(&mut state) as u32;
        if f32::from_bits(bits).is_nan() {
            assert!(f64::from_bits(widen(bits)).is_nan());
        } else {
            assert_eq!(widen(bits), widen_by_machine(bits), "bits {bits:#x}");
        }
    }
    for exp in 0..=255u32 {
        for frac in [0u32, 1, 2, 0x40_0000, 0x7F_FFFF, 0x12_3456] {
            for sign in [0u32, 1] {
                let bits = (sign << 31) | (exp << 23) | frac;
                if !f32::from_bits(bits).is_nan() {
                    assert_eq!(widen(bits), widen_by_machine(bits), "bits {bits:#x}");
                }
            }
        }
    }
}

#[test]
fn narrow_exact_values() {
    assert_eq!(narrow(1.0f64.to_bits()), 1.0f32.to_bits());
    assert_eq!(narrow(0.0f64.to_bits()), 0.0f32.to_bits());
    assert_eq!(narrow((-0.0f64).to_bits()), (-0.0f32).to_bits());
    assert_eq!(narrow(3.5f64.to_bits()), 3.5f32.to_bits());
    assert_eq!(narrow(f64::INFINITY.to_bits()), f32::INFINITY.to_bits());
    assert_eq!(narrow(f64::MAX.to_bits()), f32::INFINITY.to_bits());
    assert_eq!(narrow(f64::MIN.to_bits()), f32::NEG_INFINITY.to_bits());
    assert_eq!(narrow(f64::MIN_POSITIVE.to_bits()), 0.0f32.to_bits());
    assert_eq!(narrow(0.1f64.to_bits()), 0.1f32.to_bits());
    assert_eq!(narrow(3.141_592_653_589_793f64.to_bits()), 3.141_592_7f32.to_bits());
    assert!(f32::from_bits(narrow(f64::NAN.to_bits())).is_nan());
}

#[test]
fn narrow_agrees_with_the_machine() {
    let mut state = 11u64;
    for _ in 0..200_000 {
        let bits = next(&mut state);
        if f64::from_bits(bits).is_nan() {
            assert!(f32::from_bits(narrow(bits)).is_nan());
        } else {
            assert_eq!(narrow(bits), narrow_by_machine(bits), "bits {bits:#x}");
        }
    }
    // Every exponent, with fractions at and around the ties of the rounding.
    let fracs = [
        0u64,
        1,
        0x0_0000_0FFF_FFFF,
        0x0_0000_1000_0000,
        0x0_0000_1000_0001,
        0x0_0000_2000_0000,
        0x0_0000_3000_0000,
        0x0_0000_3000_0001,
        0xF_FFFF_E000_0000,
        0xF_FFFF_EFFF_FFFF,
        0xF_FFFF_F000_0000,
        0xF_FFFF_FFFF_FFFF,
        0x8_0000_0000_0000,
        0x1_2345_6789_ABCD,
    ];
    for exp in 0..=2046u64 {
        for frac in fracs {
            for sign in [0u64, 1] {
                let bits = (sign << 63) | (exp << 52) | frac;
                assert_eq!(narrow(bits), narrow_by_machine(bits), "bits {bits:#x}");
            }
        }
    }
    // Around the range of the subnormal results, fraction bit by fraction bit.
    for exp in 860..=900u64 {
        for bit in 0..52u64 {
            for extra in [0u64, 1] {
                let bits = (exp << 52) | (1u64 << bit) | extra;
                assert_eq!(narrow(bits), narrow_by_machine(bits), "bits {bits:#x}");
            }
        }
    }
}

#[test]
fn number_of_the_other_width_is_converted() {
    let mut encoder = Encoder::new();
    encoder.encode(&Value::Double(1.5f64.to_bits()), &SchemaType::float()).unwrap();
    assert_eq!(encoder.as_bytes(), &1.5f32.to_be_bytes());

    let mut encoder = Encoder::new();
    encoder.encode(&Value::Float(1.5f32.to_bits()), &SchemaType::double()).unwrap();
    assert_eq!(encoder.as_bytes(), &1.5f64.to_be_bytes());

    let mut encoder = Encoder::new();
    encoder.encode(&Value::Double(0.1f64.to_bits()), &SchemaType::float()).unwrap();
    let mut buf = encoder.finish();
    let decoded = Decoder::decode(&mut buf, &SchemaType::float()).unwrap();
    assert_eq!(decoded, Value::Float(0.1f32.to_bits()));
}
