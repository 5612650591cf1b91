use star_catalog::angle::{Degree, HourAngle};
use star_catalog::coord::{average_coord, EquatorialCoordinate, FULL_TURN_UAS, QUARTER_TURN_UAS};

#[test]
fn hour_angle_total_seconds() {
    let h = HourAngle::new(5, 30, 0);
    assert_eq!(h.to_sec(), 19_800_000);
    let zero = HourAngle::new(0, 0, 0);
    assert_eq!(zero.to_sec(), 0);
}

#[test]
fn hour_angle_noon_is_half_turn() {
    let h = HourAngle::new(12, 0, 0);
    assert_eq!(h.to_sec(), 43_200_000);
    let uas = h.to_degrees();
    assert_eq!(uas, 648_000_000_000);
    let degrees = uas as f64 / 3_600_000_000.0;
    assert_eq!(degrees, 180.0);
    let radians = degrees.to_radians();
    assert!((radians - std::f64::consts::PI).abs() < 1e-12);
}

#[test]
fn hour_angle_day_bound() {
    assert_eq!(HourAngle::max_secs(), 86_400_000);
    let last = HourAngle::new(23, 59, 59_999);
    assert!(last.to_sec() < HourAngle::max_secs());
}

#[test]
fn degree_to_decimal_half_degree() {
    let d = Degree::new(45, 30, 0);
    let uas = d.to_decimal();
    assert_eq!(uas, 163_800_000_000);
    let decimal = uas as f64 / 3_600_000_000.0;
    assert_eq!(decimal, 45.5);
}

#[test]
fn degree_components_always_add() {
    // The arcminute and arcsecond terms are added whatever the sign of the
    // base, so a negative base does not subtract them.
    let d = Degree::new(-23, 15, 0);
    assert_eq!(d.to_decimal(), -23 * 3_600_000_000i64 + 15 * 60_000_000i64);
}

#[test]
fn degree_arcseconds_scale() {
    let d = Degree::new(0, 0, 30_500);
    assert_eq!(d.to_decimal(), 30_500_000);
}

#[test]
fn normalization_clamps_north_pole() {
    let c = EquatorialCoordinate::new(0, 400_000_000_000);
    assert_eq!(c.declination, QUARTER_TURN_UAS);
}

#[test]
fn normalization_clamps_south_pole() {
    let c = EquatorialCoordinate::new(0, -400_000_000_000);
    assert_eq!(c.declination, -QUARTER_TURN_UAS);
}

#[test]
fn normalization_keeps_in_range_declination() {
    let c = EquatorialCoordinate::new(7, 100);
    assert_eq!(c.declination, 100);
    assert_eq!(c.right_ascension, 7);
}

#[test]
fn normalization_wraps_full_turn() {
    let c = EquatorialCoordinate::new(FULL_TURN_UAS + 123, 0);
    assert_eq!(c.right_ascension, 123);
    let exact = EquatorialCoordinate::new(FULL_TURN_UAS, 0);
    assert_eq!(exact.right_ascension, 0);
}

#[test]
fn normalization_keeps_negative_remainder() {
    // The truncating remainder keeps the sign of a negative right
    // ascension, mirroring the host remainder operator.
    let c = EquatorialCoordinate::new(-123, 0);
    assert_eq!(c.right_ascension, -123);
    let c2 = EquatorialCoordinate::new(-FULL_TURN_UAS - 5, 0);
    assert_eq!(c2.right_ascension, -5);
}

#[test]
fn normalization_idempotent_on_samples() {
    let samples = [
        (0i64, 0i64),
        (5_000_000_000, 1_000_000_000),
        (-77, 400_000_000_000),
        (FULL_TURN_UAS + 1, -400_000_000_000),
        (-FULL_TURN_UAS - 1, 17),
    ];
    for (ra, dec) in samples {
        let once = EquatorialCoordinate::new(ra, dec);
        let twice = EquatorialCoordinate::new(once.right_ascension, once.declination);
        assert_eq!(once, twice);
    }
}

#[test]
fn from_hour_angle_converts_and_normalizes() {
    let c = EquatorialCoordinate::from_hour_angle(HourAngle::new(12, 0, 0), 100);
    assert_eq!(c.right_ascension, 648_000_000_000);
    assert_eq!(c.declination, 100);
}

#[test]
fn average_of_equal_readings_is_exact() {
    let c = EquatorialCoordinate::new(360_000_000, 50);
    let readings = vec![c, c, c];
    let mean = average_coord(&readings);
    assert_eq!(mean, c);
}

#[test]
fn average_is_componentwise_arithmetic() {
    let a = EquatorialCoordinate::new(10, 30);
    let b = EquatorialCoordinate::new(20, 60);
    let c = EquatorialCoordinate::new(33, 90);
    let mean = average_coord(&vec![a, b, c]);
    assert_eq!(mean.right_ascension, 21);
    assert_eq!(mean.declination, 60);
}

#[test]
fn average_truncates_toward_zero() {
    let a = EquatorialCoordinate::new(10, -10);
    let b = EquatorialCoordinate::new(10, -10);
    let c = EquatorialCoordinate::new(11, -11);
    let mean = average_coord(&vec![a, b, c]);
    assert_eq!(mean.right_ascension, 10);
    assert_eq!(mean.declination, -10);
}

#[test]
fn average_of_single_reading() {
    let c = EquatorialCoordinate::new(77, -5);
    assert_eq!(average_coord(&vec![c]), c);
}
