use smc::F32;

fn single(v: f32) -> F32 {
    F32::from_bits(v.to_bits())
}

fn same(got: F32, want: f32) -> bool {
    if want.is_nan() {
        got.is_nan()
    } else {
        got.to_bits() == want.to_bits()
    }
}

fn samples() -> Vec<f32> {
    let mut out = vec![
        0.0,
        1.0,
        1.5,
        2.0,
        3.0,
        0.1,
        0.3,
        5.0,
        10.0,
        100.0,
        150.0,
        500.0,
        1200.0,
        1500.0,
        3000.0,
        16383.75,
        16777216.0,
        16777215.0,
        8388608.0,
        8388607.5,
        1.0e-20,
        1.0e20,
        1.0e38,
        3.0e38,
        1.0e-38,
        1.0e-45,
        f32::MAX,
        f32::MIN_POSITIVE,
        f32::MIN_POSITIVE / 2.0,
        f32::from_bits(1),
        f32::from_bits(2),
        f32::from_bits(3),
        f32::from_bits(0x007f_ffff),
        f32::from_bits(0x0080_0001),
        f32::from_bits(0x3f80_0001),
        f32::from_bits(0x3fff_ffff),
        f32::EPSILON,
        f32::INFINITY,
        f32::NAN,
    ];
    let negatives: Vec<f32> = out.iter().map(|v| -*v).collect();
    out.extend(negatives);
    out
}

fn random(count: usize) -> Vec<f32> {
    let mut out = Vec::new();
    let mut bits: u32 = 0x9e37_79b9;
    for i in 0..count {
        bits = bits.wrapping_mul(1_664_525).wrapping_add(1_013_904_223);
        let mixed = bits ^ (bits >> 15);
        out.push(match i % 3 {
            0 => f32::from_bits(mixed),
            1 => f32::from_bits((mixed & 0x807f_ffff) | (((mixed >> 23) % 64 + 96) << 23)),
            _ => ((mixed >> 8) as f32) / 256.0 - 30000.0,
        });
    }
    out
}

#[test]
fn products_are_those_of_the_machine() {
    let all = samples();
    for a in &all {
        for b in &all {
            assert!(same(single(*a).mul(single(*b)), a * b), "{a:e} * {b:e}");
        }
    }
    let all = random(3000);
    for pair in all.windows(2) {
        let (a, b) = (pair[0], pair[1]);
        assert!(same(single(a).mul(single(b)), a * b), "{a:e} * {b:e}");
    }
}

#[test]
fn quotients_are_those_of_the_machine() {
    let all = samples();
    for a in &all {
        for b in &all {
            assert!(same(single(*a).div(single(*b)), a / b), "{a:e} / {b:e}");
        }
    }
    let all = random(3000);
    for pair in all.windows(2) {
        let (a, b) = (pair[0], pair[1]);
        assert!(same(single(a).div(single(b)), a / b), "{a:e} / {b:e}");
    }
}

#[test]
fn differences_are_those_of_the_machine() {
    let all = samples();
    for a in &all {
        for b in &all {
            assert!(same(single(*a).sub(single(*b)), a - b), "{a:e} - {b:e}");
        }
    }
    let all = random(3000);
    for pair in all.windows(2) {
        let (a, b) = (pair[0], pair[1]);
        assert!(same(single(a).sub(single(b)), a - b), "{a:e} - {b:e}");
    }
}

#[test]
fn differences_of_neighbours_are_exact() {
    for bits in [1u32, 0x007f_ffff, 0x0080_0000, 0x3f80_0000, 0x4b00_0000, 0x7f7f_ffff] {
        let a = f32::from_bits(bits);
        let b = f32::from_bits(bits - 1);
        assert!(same(single(a).sub(single(b)), a - b));
        assert!(same(single(b).sub(single(a)), b - a));
        assert!(same(single(a).sub(single(-b)), a + b));
    }
}

#[test]
fn ties_go_to_the_even_single() {
    // 2^24 + 1 lies in the middle between two singles.
    let a = 16_777_216.0f32;
    assert!(same(single(a).sub(single(-1.0)), a + 1.0));
    assert!(same(single(a + 2.0).sub(single(-1.0)), a + 2.0 + 1.0));
    assert!(same(single(a).sub(single(1.0)), a - 1.0));
    assert!(same(single(3.0).mul(single(f32::from_bits(0x3f80_0001))), 3.0 * f32::from_bits(0x3f80_0001)));
    assert!(same(single(1.0).div(single(3.0)), 1.0 / 3.0));
    assert!(same(single(f32::from_bits(3)).div(single(2.0)), f32::from_bits(3) / 2.0));
    assert!(same(single(f32::from_bits(1)).div(single(2.0)), f32::from_bits(1) / 2.0));
    assert!(same(single(f32::MAX).mul(single(2.0)), f32::INFINITY));
    assert!(same(single(f32::MAX).sub(single(-f32::MAX)), f32::INFINITY));
}

#[test]
fn zeros_keep_the_sign_that_the_rules_give() {
    for (a, b) in [(0.0f32, 0.0f32), (-0.0, 0.0), (0.0, -0.0), (-0.0, -0.0), (1.5, 1.5), (-2.0, -2.0)] {
        assert_eq!(single(a).sub(single(b)).to_bits(), (a - b).to_bits(), "{a} - {b}");
        assert_eq!(single(a).mul(single(b)).to_bits(), (a * b).to_bits(), "{a} * {b}");
    }
    assert_eq!(single(-0.0).div(single(3.0)).to_bits(), (-0.0f32 / 3.0).to_bits());
    assert_eq!(single(0.0).div(single(-3.0)).to_bits(), (0.0f32 / -3.0).to_bits());
}
