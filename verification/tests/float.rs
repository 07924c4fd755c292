use pocketcam::float::Single;

fn s(v: f32) -> Single {
    Single { bits: v.to_bits() }
}

fn f(v: Single) -> f32 {
    f32::from_bits(v.bits)
}

/// Numbers of all sizes, and some round ones.
fn numbers() -> Vec<f32> {
    let mut r = vec![0.0, 1.0, 2.0, 0.5, 100.0, 1000.0, 1e6, 1e9, 0.85, 0.15, 16777216.0, f32::MAX];
    r.push(f32::MIN_POSITIVE);
    r.push(f32::from_bits(1));
    r.push(f32::from_bits(0x7f_ffff));
    let mut x: u64 = 0x9E37_79B9_7F4A_7C15;
    for _ in 0..120 {
        x = x.wrapping_mul(6364136223846793005).wrapping_add(1442695040888963407);
        r.push(f32::from_bits((x >> 33) as u32 % 0x7F80_0000));
        // Of like size.
        r.push(f32::from_bits(0x3F00_0000 + (x >> 40) as u32 % 0x0400_0000));
    }
    r
}

#[test]
fn operations_round_like_the_machine() {
    let all = numbers();
    for &a in &all {
        for &b in &all {
            assert_eq!(f(s(a).plus(s(b))), a + b, "{a} + {b}");
            assert_eq!(f(s(a).minus(s(b))), (a - b).max(0.0), "{a} - {b}");
            assert_eq!(f(s(a).times(s(b))), a * b, "{a} * {b}");
            if b > 0.0 {
                assert_eq!(f(s(a).over(s(b))), a / b, "{a} / {b}");
            }
            assert_eq!(f(s(a).least(s(b))), a.min(b));
            assert_eq!(f(s(a).most(s(b))), a.max(b));
            assert_eq!(s(a).bits < s(b).bits, a < b);
        }
    }
}

#[test]
fn integers_and_fractions_round_like_the_machine() {
    let mut x: u64 = 7;
    for i in 0..64 {
        x = x.wrapping_mul(6364136223846793005).wrapping_add(1442695040888963407);
        let n = x >> i;
        assert_eq!(f(Single::of(n)), n as f32);
    }
    assert_eq!(Single::ratio(85, 100), s(0.85));
    assert_eq!(Single::ratio(15, 100), s(0.15));
    assert_eq!(Single::ratio(7, 10), s(0.7));
    assert_eq!(Single::ratio(5, 100), s(0.05));
    assert_eq!(Single::ratio(58, 100), s(0.58));
    assert_eq!(Single::of(0), s(0.0));
    for ns in [0, 1, 999_999_999, 1_000_000_000, 1_999_980_000, 33_333_333, u64::MAX] {
        let d = std::time::Duration::from_nanos(ns);
        assert_eq!(f(Single::seconds(ns)), d.as_secs_f32(), "{ns}");
    }
}

#[test]
fn numbers_are_cut_like_the_machine() {
    for &a in &numbers() {
        assert_eq!(s(a).integer().to_string(), format!("{a:.0}"));
        let (n, t) = s(a).tenths();
        assert_eq!(format!("{n}.{t}"), format!("{a:.1}"));
    }
    for i in 0..200u16 {
        let a = f32::from(i) / 8.0;
        assert_eq!(s(a).integer().to_string(), format!("{a:.0}"));
        let (n, t) = s(a).tenths();
        assert_eq!(format!("{n}.{t}"), format!("{a:.1}"));
    }
}
