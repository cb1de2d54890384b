use thermocam::color::normalize;
use thermocam::{Color, Fraction, ThermoError};

const BLACK: Color = Color { r: 0, g: 0, b: 0 };
const WHITE: Color = Color { r: 255, g: 255, b: 255 };
const BLUE: Color = Color { r: 0, g: 0, b: 255 };
const RED: Color = Color { r: 255, g: 0, b: 0 };

fn frac(num: i64, den: i64) -> Fraction {
    Fraction { num, den }
}

#[test]
fn lerp_at_zero_and_one_gives_the_end_colors() {
    let a = Color { r: 10, g: 200, b: 30 };
    let b = Color { r: 240, g: 5, b: 77 };
    assert_eq!(Color::lerp(a, b, frac(0, 1)), a);
    assert_eq!(Color::lerp(a, b, frac(1, 1)), b);
    assert_eq!(Color::lerp(a, b, frac(0, 7)), a);
    assert_eq!(Color::lerp(a, b, frac(7, 7)), b);
}

#[test]
fn lerp_truncates_the_midpoint() {
    assert_eq!(Color::lerp(BLACK, WHITE, frac(1, 2)), Color { r: 127, g: 127, b: 127 });
    assert_eq!(Color::lerp(BLUE, RED, frac(1, 2)), Color { r: 127, g: 0, b: 127 });
    assert_eq!(Color::lerp(WHITE, BLACK, frac(1, 3)), Color { r: 170, g: 170, b: 170 });
}

#[test]
fn lerp_outside_the_unit_interval_gives_the_nearer_end() {
    assert_eq!(Color::lerp(BLUE, RED, frac(-1, 4)), BLUE);
    assert_eq!(Color::lerp(BLUE, RED, frac(5, 4)), RED);
}

#[test]
fn lerp_is_monotonic_per_channel() {
    let mut last = Color::lerp(BLACK, RED, frac(0, 100));
    for k in 1..=100 {
        let c = Color::lerp(BLACK, RED, frac(k, 100));
        assert!(c.r >= last.r);
        assert_eq!(c.g, 0);
        last = c;
    }
}

#[test]
fn normalize_gives_the_position_on_the_scale() {
    assert_eq!(normalize(0, 10, 5), Ok(frac(5, 10)));
    assert_eq!(normalize(10, 0, 5), Ok(frac(5, 10)));
    assert_eq!(normalize(10, 0, 10), Ok(frac(0, 10)));
    assert_eq!(normalize(-5000, 35000, 35000), Ok(frac(40000, 40000)));
}

#[test]
fn normalize_rejects_a_degenerate_scale() {
    assert_eq!(normalize(7, 7, 3), Err(ThermoError::DegenerateScale));
}

#[test]
fn normalize_then_lerp_round_trips_the_bounds() {
    let a = Color { r: 3, g: 100, b: 250 };
    let b = Color { r: 200, g: 7, b: 9 };
    for (min, max) in [(18000, 35000), (35000, 18000), (-3, 4)] {
        assert_eq!(Color::lerp(a, b, normalize(min, max, min).unwrap()), a);
        assert_eq!(Color::lerp(a, b, normalize(min, max, max).unwrap()), b);
    }
}

#[test]
fn discrete_blend_samples_below_one() {
    let stops = Color::discrete_blend(BLACK, WHITE, 4);
    let values: Vec<u8> = stops.iter().map(|c| c.r).collect();
    assert_eq!(values, vec![0, 63, 127, 191]);
}

#[test]
fn discrete_blend_has_the_requested_length_and_starts_at_the_first_color() {
    let stops = Color::discrete_blend(BLUE, RED, 150);
    assert_eq!(stops.len(), 150);
    assert_eq!(stops[0], BLUE);
    assert_ne!(stops[149], RED);
    for pair in stops.windows(2) {
        assert!(pair[0].r <= pair[1].r);
        assert!(pair[0].b >= pair[1].b);
    }
    assert!(Color::discrete_blend(BLUE, RED, 0).is_empty());
}

#[test]
fn to_vec_lists_red_green_blue() {
    assert_eq!(Color { r: 1, g: 2, b: 3 }.to_vec(), vec![1, 2, 3]);
}
