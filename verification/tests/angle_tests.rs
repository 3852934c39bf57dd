use astroids::angle::{cos_mdeg, norm_deg, scaled_milli, sin_mdeg, sin_q};

#[test]
fn sine_table_anchor_values() {
    assert_eq!(sin_q(0), 0);
    assert_eq!(sin_q(30), 500);
    assert_eq!(sin_q(90), 1000);
    assert_eq!(sin_mdeg(0), 0);
    assert_eq!(sin_mdeg(90), 1000);
    assert_eq!(sin_mdeg(180), 0);
    assert_eq!(sin_mdeg(270), -1000);
    assert_eq!(sin_mdeg(30), 500);
    assert_eq!(sin_mdeg(150), 500);
    assert_eq!(sin_mdeg(210), -500);
    assert_eq!(sin_mdeg(330), -500);
}

#[test]
fn cosine_is_shifted_sine() {
    assert_eq!(cos_mdeg(0), 1000);
    assert_eq!(cos_mdeg(90), 0);
    assert_eq!(cos_mdeg(180), -1000);
    assert_eq!(cos_mdeg(270), 0);
    assert_eq!(cos_mdeg(60), 500);
}

#[test]
fn normalization_wraps_into_full_turn() {
    assert_eq!(norm_deg(0), 0);
    assert_eq!(norm_deg(360), 0);
    assert_eq!(norm_deg(-90), 270);
    assert_eq!(norm_deg(725), 5);
    assert_eq!(norm_deg(-725), 355);
}

#[test]
fn negative_rotations_have_negated_sine() {
    for d in 0..360 {
        assert_eq!(sin_mdeg(-d), -sin_mdeg(d));
    }
}

#[test]
fn x_bounce_reflection_negates_sine() {
    for d in -360..720 {
        assert_eq!(sin_mdeg(360 - d), -sin_mdeg(d));
    }
}

#[test]
fn y_bounce_reflection_negates_cosine() {
    for d in -360..720 {
        assert_eq!(cos_mdeg(180 - d), -cos_mdeg(d));
        assert_eq!(cos_mdeg(540 - d), cos_mdeg(180 - d));
    }
}

#[test]
fn scaled_displacement_truncates_toward_zero() {
    assert_eq!(scaled_milli(4, 707), 2);
    assert_eq!(scaled_milli(4, -707), -2);
    assert_eq!(scaled_milli(5, 1000), 5);
    assert_eq!(scaled_milli(5, -1000), -5);
    assert_eq!(scaled_milli(10, 0), 0);
    assert_eq!(scaled_milli(0, 999), 0);
}
