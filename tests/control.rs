use multipong::control::{direction_delta, key_delta, normalize_delta, ControlDelta, Direction, DIAG, UNIT};

#[test]
fn diagonal_is_normalized_to_unit_length() {
    let d = key_delta(1, 1);
    assert_eq!(d, ControlDelta { dx: 707106, dy: 707106 });
    let len = ((d.dx as f64).powi(2) + (d.dy as f64).powi(2)).sqrt() / UNIT as f64;
    assert!((len - 1.0).abs() < 1e-5);
    assert!(((d.dx as f64 / UNIT as f64) - std::f64::consts::FRAC_1_SQRT_2).abs() <= 1e-6);
}

#[test]
fn diagonal_signs_follow_axes() {
    assert_eq!(key_delta(-1, 1), ControlDelta { dx: -DIAG, dy: DIAG });
    assert_eq!(key_delta(1, -1), ControlDelta { dx: DIAG, dy: -DIAG });
    assert_eq!(key_delta(-1, -1), ControlDelta { dx: -DIAG, dy: -DIAG });
}

#[test]
fn full_diagonal_is_scaled_down() {
    assert_eq!(normalize_delta(ControlDelta { dx: UNIT, dy: UNIT }), ControlDelta { dx: DIAG, dy: DIAG });
    assert_eq!(normalize_delta(ControlDelta { dx: UNIT, dy: -UNIT }), ControlDelta { dx: DIAG, dy: -DIAG });
}

#[test]
fn normalized_delta_is_applied_as_it_is() {
    let d = ControlDelta { dx: DIAG, dy: -DIAG };
    assert_eq!(normalize_delta(d), d);
    assert_eq!(normalize_delta(normalize_delta(ControlDelta { dx: UNIT, dy: UNIT })), ControlDelta { dx: DIAG, dy: DIAG });
}

#[test]
fn delta_within_a_unit_is_not_scaled() {
    assert_eq!(normalize_delta(ControlDelta { dx: UNIT, dy: 0 }), ControlDelta { dx: UNIT, dy: 0 });
    assert_eq!(normalize_delta(ControlDelta { dx: 0, dy: -300000 }), ControlDelta { dx: 0, dy: -300000 });
    assert_eq!(normalize_delta(ControlDelta { dx: 500000, dy: 500000 }), ControlDelta { dx: 500000, dy: 500000 });
    assert_eq!(normalize_delta(ControlDelta { dx: 0, dy: 0 }), ControlDelta { dx: 0, dy: 0 });
}

#[test]
fn longer_delta_is_scaled_toward_zero() {
    assert_eq!(normalize_delta(ControlDelta { dx: UNIT, dy: 500000 }), ControlDelta { dx: 707106, dy: 353553 });
    assert_eq!(normalize_delta(ControlDelta { dx: -UNIT, dy: 300000 }), ControlDelta { dx: -707106, dy: 212131 });
}

#[test]
fn key_axis_moves_a_full_unit() {
    assert_eq!(key_delta(1, 0), ControlDelta { dx: UNIT, dy: 0 });
    assert_eq!(key_delta(0, -1), ControlDelta { dx: 0, dy: -UNIT });
    assert_eq!(key_delta(0, 0), ControlDelta { dx: 0, dy: 0 });
}

#[test]
fn only_the_sign_of_an_axis_counts() {
    assert_eq!(key_delta(5, 0), ControlDelta { dx: UNIT, dy: 0 });
    assert_eq!(key_delta(0, 127), ControlDelta { dx: 0, dy: UNIT });
    assert_eq!(key_delta(-128, 127), ControlDelta { dx: -DIAG, dy: DIAG });
}

#[test]
fn direction_steps_along_y() {
    assert_eq!(direction_delta(Direction::Up), ControlDelta { dx: 0, dy: UNIT });
    assert_eq!(direction_delta(Direction::Down), ControlDelta { dx: 0, dy: -UNIT });
    assert_eq!(direction_delta(Direction::Still), ControlDelta { dx: 0, dy: 0 });
}

#[test]
fn range_check_on_deltas() {
    assert!(ControlDelta { dx: UNIT, dy: -UNIT }.is_in_range());
    assert!(!ControlDelta { dx: UNIT + 1, dy: 0 }.is_in_range());
    assert!(!ControlDelta { dx: 0, dy: -UNIT - 1 }.is_in_range());
}
