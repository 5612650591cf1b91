use star_catalog::catalog::{
    distance_from_parallax, identifier_marks_companion, import, process_record, Record, RowResult,
    SimbadError, StellarPosition,
};

fn bare_record(id: usize, identifier: &str) -> Record {
    Record {
        id,
        identifier: identifier.to_string(),
        typ: String::new(),
        coord1: None,
        coord2: None,
        coord3: None,
        coord4: None,
        pm: None,
        plx: None,
        radvel: None,
        redshift: None,
        cz: None,
        mag_u: None,
        mag_b: None,
        mag_v: None,
        mag_r: None,
        mag_i: None,
        spec_type: None,
        morph_type: None,
        ang_size: None,
        pretty_name: None,
    }
}

fn full_record(id: usize, identifier: &str) -> Record {
    let mut r = bare_record(id, identifier);
    r.plx = Some(100_000);
    r.coord1 = Some("05 30 00 +23 15 30".to_string());
    r.coord2 = Some("05 30 00 +23 15 30".to_string());
    r.coord3 = Some("05 30 00 +23 15 30".to_string());
    r.spec_type = Some("G2V".to_string());
    r
}

#[test]
fn distance_follows_parallax_rule() {
    // 100 milliarcseconds of parallax give 3.26 / 0.1 = 32.6 distance units.
    assert_eq!(distance_from_parallax(100_000), 32_600);
    assert_eq!(distance_from_parallax(1_000_000), 3_260);
    assert_eq!(distance_from_parallax(-100_000), -32_600);
}

#[test]
fn zero_parallax_clamps_distance_to_zero() {
    assert_eq!(distance_from_parallax(0), 0);
}

#[test]
fn companion_suffix_detection() {
    assert!(identifier_marks_companion("HD1B"));
    assert!(identifier_marks_companion("B"));
    assert!(!identifier_marks_companion("HD1"));
    assert!(!identifier_marks_companion(""));
    assert!(!identifier_marks_companion("HD1b"));
}

#[test]
fn stellar_position_normalizes_its_coordinate() {
    let p = StellarPosition::new(5, 1_296_000_000_001, 400_000_000_000);
    assert_eq!(p.distance, 5);
    assert_eq!(p.coord.right_ascension, 1);
    assert_eq!(p.coord.declination, 324_000_000_000);
}

#[test]
fn row_without_parallax_is_skipped() {
    let r = bare_record(1, "HD1");
    assert!(matches!(process_record(&r), RowResult::Skipped));
}

#[test]
fn row_without_coordinate_column_fails() {
    let mut r = full_record(1, "HD1");
    r.coord2 = None;
    match process_record(&r) {
        RowResult::Failed(e) => assert_eq!(e, SimbadError::CoordNotFound),
        _ => panic!("expected a missing-coordinate failure"),
    }
}

#[test]
fn row_with_no_parsable_reading_fails() {
    let mut r = full_record(1, "HD1");
    r.coord1 = Some("garbage".to_string());
    r.coord2 = Some("also garbage".to_string());
    r.coord3 = Some("12 30".to_string());
    match process_record(&r) {
        RowResult::Failed(e) => assert_eq!(e, SimbadError::CoordNotFound),
        _ => panic!("expected a missing-coordinate failure"),
    }
}

#[test]
fn row_without_spectral_type_is_skipped() {
    let mut r = full_record(1, "HD1");
    r.spec_type = None;
    assert!(matches!(process_record(&r), RowResult::Skipped));
}

#[test]
fn companion_row_is_skipped() {
    let r = full_record(1, "HD1B");
    assert!(matches!(process_record(&r), RowResult::Skipped));
}

#[test]
fn resolved_row_carries_its_fields() {
    let mut r = full_record(7, "HD7");
    r.pretty_name = Some("Alpha".to_string());
    match process_record(&r) {
        RowResult::Resolved(star) => {
            assert_eq!(star.id, 7);
            assert_eq!(star.name, "Alpha");
            assert_eq!(star.class, "G2V");
            assert_eq!(star.constellation, "?");
            assert_eq!(star.pos.distance, 32_600);
            assert_eq!(star.pos.coord.right_ascension, 297_000_000_000);
            assert_eq!(star.pos.coord.declination, 83_730_000_000);
        },
        _ => panic!("expected a resolved star"),
    }
}

#[test]
fn missing_pretty_name_gives_empty_name() {
    let r = full_record(1, "HD1");
    match process_record(&r) {
        RowResult::Resolved(star) => assert_eq!(star.name, ""),
        _ => panic!("expected a resolved star"),
    }
}

#[test]
fn one_failed_reading_is_excluded_from_averaging() {
    let mut r = full_record(1, "HD1");
    r.coord2 = Some("unparsable".to_string());
    match process_record(&r) {
        RowResult::Resolved(star) => {
            // The two remaining equal readings still average to themselves.
            assert_eq!(star.pos.coord.right_ascension, 297_000_000_000);
            assert_eq!(star.pos.coord.declination, 83_730_000_000);
        },
        _ => panic!("expected a resolved star"),
    }
}

#[test]
fn three_row_catalog_emits_one_star() {
    let mut good = full_record(1, "HD1");
    good.pretty_name = Some("HD1".to_string());
    let no_parallax = {
        let mut r = full_record(2, "HD2");
        r.plx = None;
        r
    };
    let companion = full_record(3, "HD3B");
    let stars = import(&vec![good, no_parallax, companion]).expect("no row error");
    assert_eq!(stars.len(), 1);
    assert_eq!(stars[0].id, 1);
    assert_eq!(stars[0].pos.distance, 32_600);
}

#[test]
fn import_aborts_on_first_failing_row() {
    let good = full_record(1, "HD1");
    let mut bad = full_record(2, "HD2");
    bad.coord3 = None;
    let later_good = full_record(3, "HD3");
    let result = import(&vec![good, bad, later_good]);
    match result {
        Err(e) => assert_eq!(e, SimbadError::CoordNotFound),
        Ok(_) => panic!("expected the import to abort"),
    }
}

#[test]
fn empty_import_yields_no_stars() {
    let stars = import(&Vec::new()).expect("empty batch");
    assert!(stars.is_empty());
}

#[test]
fn import_preserves_record_order() {
    let mut a = full_record(10, "HD10");
    a.pretty_name = Some("First".to_string());
    let mut b = full_record(11, "HD11");
    b.pretty_name = Some("Second".to_string());
    let stars = import(&vec![a, b]).expect("no row error");
    assert_eq!(stars.len(), 2);
    assert_eq!(stars[0].name, "First");
    assert_eq!(stars[1].name, "Second");
}
