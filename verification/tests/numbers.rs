use native_audio::double::Double;
use native_audio::single::{narrow, Single};
use native_audio::timing::{
    cap, clamp_span, is_near, is_past_quarter, raise, safe_duration, step, InvalidDuration, NEAR_BITS,
    QUARTER_BITS, TICK_BITS, WEEK_BITS,
};

const WEEK: f64 = 86400.0 * 7.0;

fn d(x: f64) -> Double {
    Double { bits: x.to_bits() }
}

fn f(x: Double) -> f64 {
    f64::from_bits(x.bits)
}

/// A simple generator of bit patterns.
struct Patterns(u64);

impl Patterns {
    fn next(&mut self) -> u64 {
        self.0 = self.0.wrapping_mul(6364136223846793005).wrapping_add(1442695040888963407);
        self.0 ^ (self.0 >> 29)
    }

    /// A number between zero and one.
    fn fraction(&mut self) -> f64 {
        (self.next() >> 11) as f64 / (1u64 << 53) as f64
    }
}

fn edges() -> Vec<f64> {
    vec![
        0.0,
        -0.0,
        f64::MIN_POSITIVE,
        f64::from_bits(1),
        -f64::from_bits(1),
        0.05,
        0.2,
        0.25,
        0.25000000000000006,
        1.0,
        -1.0,
        16.0,
        604799.9,
        WEEK,
        604800.0000000001,
        f64::MAX,
        f64::MIN,
        f64::INFINITY,
        f64::NEG_INFINITY,
        f64::NAN,
        -f64::NAN,
    ]
}

#[test]
fn constants_are_the_literals() {
    assert_eq!(f64::from_bits(WEEK_BITS), WEEK);
    assert_eq!(f64::from_bits(TICK_BITS), 0.2);
    assert_eq!(f64::from_bits(NEAR_BITS), 0.05);
    assert_eq!(f64::from_bits(QUARTER_BITS), 0.25);
}

#[test]
fn comparison_agrees_with_the_machine() {
    for a in edges() {
        assert_eq!(d(a).is_finite(), a.is_finite());
        for b in edges() {
            assert_eq!(d(a).le(&d(b)), a <= b, "{a} <= {b}");
        }
    }
    let mut p = Patterns(7);
    for _ in 0..20000 {
        let a = f64::from_bits(p.next());
        let b = f64::from_bits(p.next());
        assert_eq!(d(a).le(&d(b)), a <= b);
    }
}

#[test]
fn clamping_agrees_with_the_machine() {
    for x in edges() {
        assert_eq!(f(cap(d(x))), x.min(WEEK));
        assert_eq!(f(raise(d(x))), x.max(0.0));
        let span = if x.is_finite() && x >= 0.0 { x.min(WEEK) } else { 0.0 };
        assert_eq!(f(clamp_span(d(x))), span);
    }
    assert_eq!(raise(d(-0.0)), Double::zero());
}

#[test]
fn safe_duration_accepts_and_refuses() {
    assert_eq!(safe_duration(d(1.5)), Ok(d(1.5)));
    assert_eq!(safe_duration(d(0.0)), Ok(d(0.0)));
    assert_eq!(safe_duration(d(1.0e9)), Ok(d(604800.0)));
    for x in [-1.0, f64::INFINITY, f64::NEG_INFINITY, f64::NAN] {
        assert_eq!(safe_duration(d(x)), Err(InvalidDuration { secs: d(x) }));
    }
}

#[test]
fn step_agrees_with_the_machine() {
    let mut t = 0.0f64;
    for _ in 0..20000 {
        let next = (t + 0.2).min(WEEK);
        assert_eq!(step(d(t)), d(next));
        t = next;
    }
    let mut p = Patterns(11);
    for _ in 0..20000 {
        let x = p.fraction() * WEEK;
        assert_eq!(step(d(x)), d((x + 0.2).min(WEEK)));
        let small = p.fraction() * 0.25;
        assert_eq!(step(d(small)), d(small + 0.2));
        // Tiny numbers, down to the subnormal ones.
        let tiny = f64::from_bits(p.next() % 0x3fb0_0000_0000_0000);
        assert_eq!(step(d(tiny)), d(tiny + 0.2));
    }
    assert_eq!(step(d(604799.9)), d(WEEK));
    assert_eq!(step(d(WEEK)), d(WEEK));
    assert_eq!(step(d(-0.0)), d(0.2));
    assert_eq!(step(d(0.1)), d(0.30000000000000004));
}

#[test]
fn step_brings_a_fifth_of_a_second() {
    for x in [0.0, 0.1, 1.0, 1234.5, 604799.0] {
        let brought = f(step(d(x))) - x;
        assert!(0.19 <= brought && brought <= 0.21);
    }
}

#[test]
fn nearness_agrees_with_the_machine() {
    let mut p = Patterns(13);
    for _ in 0..20000 {
        let a = 0.3 + p.fraction() * 50.0;
        let b = a + (p.fraction() - 0.5) * 0.2;
        if b > 0.25 {
            assert_eq!(is_near(d(a), d(b)), (a - b).abs() <= 0.05);
            assert_eq!(is_near(d(b), d(a)), (a - b).abs() <= 0.05);
        }
    }
    for (a, b) in [
        (1.0, 1.05),
        (1.0, 1.0500000000000003),
        (0.26, 0.31),
        (0.3, 0.35),
        (0.45, 0.5),
        (0.5, 0.55),
        (1.0, 100.0),
        (f64::MAX, f64::MAX),
        (f64::MAX, 1.0),
        (1.0e300, 1.0000000000000002e300),
    ] {
        assert_eq!(is_near(d(a), d(b)), (a - b as f64).abs() <= 0.05, "{a} {b}");
    }
}

#[test]
fn only_positions_past_a_quarter_count() {
    assert!(!is_past_quarter(d(0.25)));
    assert!(is_past_quarter(d(0.25000000000000006)));
    assert!(!is_past_quarter(d(-5.0)));
    assert!(!is_past_quarter(d(f64::INFINITY)));
    assert!(!is_past_quarter(d(f64::NAN)));
}

#[test]
fn narrowing_agrees_with_the_machine() {
    let mut p = Patterns(17);
    for _ in 0..40000 {
        let x = f64::from_bits(p.next() & 0x7fff_ffff_ffff_ffff);
        if x.is_finite() && x > 0.0 {
            assert_eq!(narrow(d(x)).bits, (x as f32).to_bits(), "{x:e}");
        }
        // Around the range of binary32, the subnormal part included.
        let e = 0x3690_0000_0000_0000 + p.next() % 0x1160_0000_0000_0000;
        let y = f64::from_bits(e);
        assert_eq!(narrow(d(y)).bits, (y as f32).to_bits(), "{y:e}");
        // Ties.
        let z = f64::from_bits((e & !0x1fff_ffff) | 0x1000_0000);
        assert_eq!(narrow(d(z)).bits, (z as f32).to_bits(), "{z:e}");
    }
    for x in [1.0, 16.0, 0.1, 1.0e300, 3.4028235677973366e38, 1.0e-45, 7.0e-46, 7.1e-46, 1.0e-320] {
        assert_eq!(narrow(d(x)).bits, (x as f32).to_bits(), "{x:e}");
    }
}

#[test]
fn speeds_up_to_sixteen_are_valid() {
    for x in [f32::MIN_POSITIVE, 1.0e-45, 0.5, 1.0, 16.0] {
        assert!(Single { bits: x.to_bits() }.is_valid_speed());
    }
    for x in [0.0, -0.0, -1.0, 16.000002, f32::INFINITY, f32::NEG_INFINITY, f32::NAN] {
        assert!(!Single { bits: x.to_bits() }.is_valid_speed());
    }
}
