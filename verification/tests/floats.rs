use cosmic_ext_workspaces_bar::float::double::F64;
use cosmic_ext_workspaces_bar::float::single::F32;

fn single(x: f32) -> F32 {
    F32 { bits: x.to_bits() }
}

fn double(x: f64) -> F64 {
    F64 { bits: x.to_bits() }
}

fn agrees(ours: F32, native: f32) -> bool {
    if native.is_nan() {
        ours.is_nan()
    } else {
        ours.bits == native.to_bits()
    }
}

fn agrees_double(ours: F64, native: f64) -> bool {
    if native.is_nan() {
        ours.is_nan()
    } else {
        ours.bits == native.to_bits()
    }
}

fn next(seed: &mut u64) -> u64 {
    *seed = seed.wrapping_mul(6364136223846793005).wrapping_add(1442695040888963407);
    *seed ^ (*seed >> 29)
}

fn sample_singles() -> Vec<f32> {
    let mut list = vec![
        0.0,
        -0.0,
        1.0,
        -1.0,
        0.5,
        1.5,
        2.5,
        -2.5,
        0.1,
        16.0 / 9.0,
        1920.0,
        1080.0,
        16777216.0,
        16777217.0,
        4294967295.0,
        4294967296.0,
        -2147483648.0,
        2147483647.0,
        f32::MAX,
        f32::MIN_POSITIVE,
        f32::from_bits(1),
        f32::from_bits(0x007f_ffff),
        f32::INFINITY,
        f32::NEG_INFINITY,
        f32::NAN,
    ];
    let mut seed = 7;
    for _ in 0..60 {
        list.push(f32::from_bits(next(&mut seed) as u32));
        list.push((next(&mut seed) % 100_000) as f32 / 16.0);
    }
    list
}

#[test]
fn single_sums_match_hardware() {
    let list = sample_singles();
    for a in &list {
        for b in &list {
            assert!(agrees(single(*a).plus(&single(*b)), a + b), "{a} + {b}");
            assert!(agrees(single(*a).minus(&single(*b)), a - b), "{a} - {b}");
        }
    }
}

#[test]
fn single_products_match_hardware() {
    let list = sample_singles();
    for a in &list {
        for b in &list {
            assert!(agrees(single(*a).times(&single(*b)), a * b), "{a} * {b}");
            assert!(agrees(single(*a).over(&single(*b)), a / b), "{a} / {b}");
        }
    }
}

#[test]
fn single_order_matches_hardware() {
    let list = sample_singles();
    for a in &list {
        for b in &list {
            assert_eq!(single(*a).less(&single(*b)), a < b, "{a} < {b}");
            assert_eq!(single(*a).equals(&single(*b)), a == b, "{a} == {b}");
            if a != b {
                assert!(agrees(single(*a).max(&single(*b)), a.max(*b)), "max {a} {b}");
            }
        }
    }
}

#[test]
fn single_rounding_matches_hardware() {
    for a in sample_singles() {
        let x = single(a);
        assert!(agrees(x.round(), a.round()), "round {a}");
        assert!(agrees(x.ceil(), a.ceil()), "ceil {a}");
        assert_eq!(x.to_u32(), a as u32, "{a} as u32");
        assert_eq!(x.to_u64(), a as u64, "{a} as u64");
        assert_eq!(x.to_i32(), a as i32, "{a} as i32");
    }
}

#[test]
fn whole_numbers_convert_as_hardware_does() {
    let mut seed = 11;
    for _ in 0..400 {
        let n = next(&mut seed) >> (next(&mut seed) % 64);
        assert_eq!(F32::from_u64(n).bits, (n as f32).to_bits());
        assert_eq!(F64::from_u64(n).bits, (n as f64).to_bits());
        let i = n as i32;
        assert_eq!(F32::from_i32(i).bits, (i as f32).to_bits());
    }
    assert_eq!(F32::from_i32(i32::MIN).bits, (i32::MIN as f32).to_bits());
    assert_eq!(F32::from_u64(u64::MAX).bits, (u64::MAX as f32).to_bits());
}

#[test]
fn whole_sums_are_exact_up_to_the_limit() {
    let a = F32::from_u64(16_777_215);
    assert_eq!(a.plus(&F32::from_u64(1)).to_u32(), 16_777_216);
    assert_eq!(F32::from_u64(16_777_217).to_u32(), 16_777_216);
}

#[test]
fn ties_go_to_even() {
    assert_eq!(F32::from_u64(16_777_217).bits, 16_777_216f32.to_bits());
    assert_eq!(F32::from_u64(16_777_219).bits, 16_777_220f32.to_bits());
}

fn sample_doubles() -> Vec<f64> {
    let mut list = vec![
        0.0,
        -0.0,
        1.0,
        0.05,
        -0.05,
        0.5,
        99.5,
        100.0,
        65535.0,
        65536.0,
        -3.7,
        f64::MAX,
        f64::MIN_POSITIVE,
        f64::from_bits(1),
        f64::INFINITY,
        f64::NEG_INFINITY,
        f64::NAN,
    ];
    let mut seed = 23;
    for _ in 0..60 {
        list.push(f64::from_bits(next(&mut seed)));
        list.push((next(&mut seed) % 1_000_000) as f64 / 1024.0);
    }
    list
}

#[test]
fn double_arithmetic_matches_hardware() {
    let list = sample_doubles();
    for a in &list {
        for b in &list {
            assert!(agrees_double(double(*a).plus(&double(*b)), a + b), "{a} + {b}");
            assert!(agrees_double(double(*a).minus(&double(*b)), a - b), "{a} - {b}");
            assert!(agrees_double(double(*a).times(&double(*b)), a * b), "{a} * {b}");
            assert_eq!(double(*a).less(&double(*b)), a < b, "{a} < {b}");
            assert_eq!(double(*a).equals(&double(*b)), a == b, "{a} == {b}");
        }
        assert!(agrees_double(double(*a).round(), a.round()), "round {a}");
        assert_eq!(double(*a).to_u16(), *a as u16, "{a} as u16");
        assert!(
            agrees_double(double(*a).clamp(&double(0.0), &double(1.0)), a.clamp(0.0, 1.0)),
            "clamp {a}"
        );
    }
}
