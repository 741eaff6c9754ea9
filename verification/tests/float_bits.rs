use half::{bf16, f16};
use voxtral_weights::float_bits::{narrow_to_bf16, widen_f16};

#[test]
fn half_precision_widens_as_the_half_crate_does() {
    for h in 0..=u16::MAX {
        assert_eq!(widen_f16(h), f16::from_bits(h).to_f32().to_bits(), "{h:#06x}");
    }
}

#[test]
fn half_precision_widens_to_the_same_value() {
    assert_eq!(f32::from_bits(widen_f16(0x3C00)), 1.0);
    assert_eq!(f32::from_bits(widen_f16(0xC000)), -2.0);
    assert_eq!(f32::from_bits(widen_f16(0x0001)), 2.0f32.powi(-24));
    assert_eq!(f32::from_bits(widen_f16(0x03FF)), 1023.0 * 2.0f32.powi(-24));
    assert_eq!(f32::from_bits(widen_f16(0x7BFF)), 65504.0);
    assert_eq!(widen_f16(0x8000), 0x8000_0000);
    assert_eq!(f32::from_bits(widen_f16(0xFC00)), f32::NEG_INFINITY);
    assert_eq!(widen_f16(0x7C01), 0x7FC0_2000);
}

#[test]
fn single_precision_narrows_as_the_half_crate_does() {
    let mut x: u32 = 0;
    for _ in 0..2_000_000 {
        assert_eq!(narrow_to_bf16(x), bf16::from_f32(f32::from_bits(x)).to_bits(), "{x:#010x}");
        x = x.wrapping_add(2_147_483_647 / 997 * 2 + 1);
    }
    for high in 0..=u16::MAX {
        for low in [0u32, 1, 0x7FFF, 0x8000, 0x8001, 0xFFFF] {
            let x = (high as u32) << 16 | low;
            assert_eq!(narrow_to_bf16(x), bf16::from_f32(f32::from_bits(x)).to_bits(), "{x:#010x}");
        }
    }
}

#[test]
fn narrowing_rounds_to_the_nearest_and_ties_to_even() {
    assert_eq!(narrow_to_bf16(1.0f32.to_bits()), 0x3F80);
    assert_eq!(narrow_to_bf16(0x3F80_7FFF), 0x3F80);
    assert_eq!(narrow_to_bf16(0x3F80_8000), 0x3F80);
    assert_eq!(narrow_to_bf16(0x3F80_8001), 0x3F81);
    assert_eq!(narrow_to_bf16(0x3F81_8000), 0x3F82);
    assert_eq!(narrow_to_bf16(f32::MAX.to_bits()), 0x7F80);
    assert_eq!(narrow_to_bf16(0x7F80_0001), 0x7FC0);
    assert_eq!(narrow_to_bf16(0xFF81_0000), 0xFFC1);
}

#[test]
fn bf16_survives_a_round_trip() {
    for b in 0..=u16::MAX {
        let value = bf16::from_bits(b);
        let back = narrow_to_bf16(value.to_f32().to_bits());
        if value.is_nan() {
            assert_eq!(back, b | 0x40);
        } else {
            assert_eq!(back, b);
        }
    }
}
