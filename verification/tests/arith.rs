use mdlc::arith::{abs, less, minus, over, plus, sqrt, times};

/// Bit patterns of all kinds: zeros, the smallest and largest numbers, infinities, NaN, and
/// numbers spread over the whole range.
fn samples() -> Vec<u32> {
    let mut list: Vec<u32> = vec![
        0,
        0x8000_0000,
        1,
        0x8000_0001,
        0x007F_FFFF,
        0x0080_0000,
        0x3F80_0000,
        0xBF80_0000,
        0x3F80_0001,
        0x4B80_0000,
        0x7F7F_FFFF,
        0xFF7F_FFFF,
        0x7F80_0000,
        0xFF80_0000,
        0x7FC0_0000,
    ];
    let mut x: u32 = 0x1234_5678;
    for _ in 0..60 {
        x = x.wrapping_mul(1664525).wrapping_add(1013904223);
        list.push(x);
        list.push((x & 0x83FF_FFFF) | 0x3C00_0000);
    }
    list
}

fn same(got: u32, want: f32) -> bool {
    let g = f32::from_bits(got);
    if want.is_nan() {
        g.is_nan()
    } else {
        got == want.to_bits()
    }
}

#[test]
fn operations_agree_with_the_machine() {
    let list = samples();
    for &a in &list {
        for &b in &list {
            let x = f32::from_bits(a);
            let y = f32::from_bits(b);
            assert!(same(plus(a, b), x + y), "{x} + {y}");
            assert!(same(minus(a, b), x - y), "{x} - {y}");
            assert!(same(times(a, b), x * y), "{x} * {y}");
            assert!(same(over(a, b), x / y), "{x} / {y}");
            assert_eq!(less(a, b), x < y, "{x} < {y}");
        }
        assert!(same(sqrt(a), f32::from_bits(a).sqrt()));
        assert!(same(abs(a), f32::from_bits(a).abs()));
    }
}

#[test]
fn rounding_goes_to_the_even_neighbour() {
    let one = 1.0f32.to_bits();
    let half_step = f32::from_bits(0x3380_0000).to_bits();
    assert_eq!(plus(one, half_step), one);
    assert_eq!(plus(one + 1, half_step), one + 2);
    assert_eq!(over(one, 3.0f32.to_bits()), (1.0f32 / 3.0).to_bits());
    assert_eq!(sqrt(2.0f32.to_bits()), 0x3FB5_04F3);
}

#[test]
fn operations_commute() {
    let (a, b) = (0.1f32.to_bits(), (-7.25f32).to_bits());
    assert_eq!(plus(a, b), plus(b, a));
    assert_eq!(times(a, b), times(b, a));
}
