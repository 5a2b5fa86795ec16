use particle_sandbox::area::Area;
use particle_sandbox::single::Single;

fn s(x: f32) -> Single {
    Single::from_bits(x.to_bits())
}

const VALUES: [f32; 13] = [
    f32::NEG_INFINITY, -1.5, -1.0, -0.0, 0.0, 1.0e-40, 0.001, 1.0, 255.9, f32::MAX, f32::INFINITY,
    f32::NAN, -f32::NAN,
];

#[test]
fn comparisons_follow_the_number_line() {
    for a in VALUES {
        for b in VALUES {
            assert_eq!(s(a).lt(s(b)), a < b);
            assert_eq!(s(a).le(s(b)), a <= b);
            assert_eq!(s(a).gt(s(b)), a > b);
            assert_eq!(s(a).ge(s(b)), a >= b);
        }
        assert_eq!(s(a).is_finite(), a.is_finite());
        assert_eq!(s(a).is_nan(), a.is_nan());
        assert_eq!(s(a).abs().bits, a.abs().to_bits());
        assert_eq!(s(a).neg().bits, (-a).to_bits());
    }
}

#[test]
fn minimum_and_maximum_pass_over_nan() {
    for a in VALUES {
        for b in VALUES {
            let low = f32::from_bits(s(a).min(s(b)).bits);
            let high = f32::from_bits(s(a).max(s(b)).bits);
            assert!(low == a.min(b) || low.is_nan() && a.min(b).is_nan());
            assert!(high == a.max(b) || high.is_nan() && a.max(b).is_nan());
        }
    }
}

#[test]
fn clamping_holds_a_number_between_two() {
    for a in VALUES {
        let r = f32::from_bits(s(a).clamp(s(-1.0), s(2.0)).bits);
        let want = a.clamp(-1.0, 2.0);
        assert!(r == want || r.is_nan() && want.is_nan());
    }
}

#[test]
fn integer_parts_are_cut_off() {
    let mut x = 0.0f32;
    while x < 1024.0 {
        assert_eq!(s(x).trunc(), x as u32);
        x += 0.37;
    }
    for x in [0.0f32, 0.999_999_9, 1.0, 1.999_999_9, 2.0, 3.5, 255.999_98, 256.0, 1023.999_9] {
        assert_eq!(s(x).trunc(), x as u32);
    }
}

#[test]
fn rectangles_can_be_drawn_from_any_corner() {
    let a = [s(1.0), s(-2.0)];
    let b = [s(-3.0), s(4.0)];
    let r = Area::between(a, b);
    assert_eq!(r, Area { min_x: s(-3.0), max_x: s(1.0), min_y: s(-2.0), max_y: s(4.0) });
    assert_eq!(r, Area::between(b, a));
    assert_eq!(r, Area::between([a[0], b[1]], [b[0], a[1]]));
    assert_eq!(r, Area::between([b[0], a[1]], [a[0], b[1]]));
    assert!(r.contains(a) && r.contains(b));
    assert!(r.contains([s(-3.0), s(4.0)]));
    assert!(!r.contains([s(1.1), s(0.0)]));
    assert!(!r.contains([s(f32::NAN), s(0.0)]));
}
