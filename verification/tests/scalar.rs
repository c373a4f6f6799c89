use skymp_wire::decimal::{append_decimal, append_signed};
use skymp_wire::scalar::{join, split, F32};

fn samples() -> Vec<f32> {
    let mut bits: Vec<u32> = vec![
        0,
        1,
        0x007f_ffff,
        0x0080_0000,
        0x3f80_0000,
        0x4974_2400,
        0x4974_2401,
        0x7f7f_ffff,
        0x7f80_0000,
        0x7f80_0001,
        0x7fc0_0000,
    ];
    let negative: Vec<u32> = bits.iter().map(|b| b | 0x8000_0000).collect();
    bits.extend(negative);
    bits.into_iter().map(f32::from_bits).collect()
}

#[test]
fn finiteness_is_that_of_floats() {
    for v in samples() {
        assert_eq!(F32::from_bits(v.to_bits()).is_finite(), v.is_finite());
    }
}

#[test]
fn equality_is_that_of_floats() {
    for a in samples() {
        for b in samples() {
            assert_eq!(
                F32::from_bits(a.to_bits()) == F32::from_bits(b.to_bits()),
                a == b
            );
        }
    }
}

#[test]
fn absolute_values_are_ordered_as_those_of_floats() {
    for a in samples() {
        for b in samples() {
            if a.is_finite() && b.is_finite() {
                assert_eq!(
                    F32::from_bits(a.to_bits()).abs_exceeds(F32::from_bits(b.to_bits())),
                    a.abs() > b.abs()
                );
            }
        }
    }
}

#[test]
fn bytes_are_those_of_floats() {
    for v in samples() {
        let x = F32::from_bits(v.to_bits());
        assert_eq!(split(x), v.to_le_bytes());
        assert_eq!(join(v.to_le_bytes()).to_bits(), v.to_bits());
    }
}

#[test]
fn decimal_numbers() {
    for n in [0u64, 9, 10, 99, 100, 2626, u64::MAX] {
        let mut out = String::from("n");
        append_decimal(&mut out, n);
        assert_eq!(out, format!("n{n}"));
    }
    for n in [0i64, -1, 31, -10, i64::MIN, i64::MAX] {
        let mut out = String::new();
        append_signed(&mut out, n);
        assert_eq!(out, format!("{n}"));
    }
}
