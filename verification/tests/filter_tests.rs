use xenium_filter_transcripts::filter::{Transcript, exclude_feature_names, filter_transcripts};
use xenium_filter_transcripts::float_bits::FloatBits;

fn fb(x: f32) -> FloatBits {
    FloatBits::from_bits(x.to_bits())
}

fn test_transcript() -> Transcript {
    Transcript {
        cell_id: "a".to_string(),
        overlaps_nucleus: 0,
        feature_name: "gene".to_string(),
        x_location: fb(100.0),
        y_location: fb(100.0),
        qv: fb(25.0),
    }
}

#[test]
fn check_min_x() {
    let t = test_transcript();

    // x coordinate is 100: kept for min_x = 5, dropped for min_x = 500.
    assert_eq!(
        true,
        filter_transcripts(&t, fb(5.0), fb(24000.0), fb(0.0), fb(24000.0), fb(20.0))
    );
    assert_eq!(
        false,
        filter_transcripts(&t, fb(500.0), fb(24000.0), fb(0.0), fb(24000.0), fb(20.0))
    );
}

#[test]
fn check_max_x() {
    let t = test_transcript();

    // x coordinate is 100: kept for max_x = 500, dropped for max_x = 5.
    assert_eq!(
        true,
        filter_transcripts(&t, fb(0.0), fb(500.0), fb(0.0), fb(24000.0), fb(20.0))
    );
    assert_eq!(
        false,
        filter_transcripts(&t, fb(0.0), fb(5.0), fb(0.0), fb(24000.0), fb(20.0))
    );
}

#[test]
fn check_min_y() {
    let t = test_transcript();

    // y coordinate is 100: kept for min_y = 5, dropped for min_y = 500.
    assert_eq!(
        true,
        filter_transcripts(&t, fb(0.0), fb(24000.0), fb(5.0), fb(24000.0), fb(20.0))
    );
    assert_eq!(
        false,
        filter_transcripts(&t, fb(0.0), fb(24000.0), fb(500.0), fb(24000.0), fb(20.0))
    );
}

#[test]
fn check_max_y() {
    let t = test_transcript();

    // y coordinate is 100: kept for max_y = 500, dropped for max_y = 5.
    assert_eq!(
        true,
        filter_transcripts(&t, fb(0.0), fb(24000.0), fb(0.0), fb(500.0), fb(20.0))
    );
    assert_eq!(
        false,
        filter_transcripts(&t, fb(0.0), fb(24000.0), fb(0.0), fb(5.0), fb(20.0))
    );
}

#[test]
fn check_qc() {
    let t = test_transcript();

    // qv is 25: kept for min_qv = 20, dropped for min_qv = 30.
    assert_eq!(
        true,
        filter_transcripts(&t, fb(0.0), fb(24000.0), fb(0.0), fb(24000.0), fb(20.0))
    );
    assert_eq!(
        false,
        filter_transcripts(&t, fb(0.0), fb(24000.0), fb(0.0), fb(24000.0), fb(30.0))
    );
}

#[test]
fn feature_names() {
    let mut t = test_transcript();

    // Should be removed
    t.feature_name = "BLANK_test".to_string();
    assert_eq!(true, exclude_feature_names(&t));
    assert_eq!(
        false,
        filter_transcripts(&t, fb(0.0), fb(24000.0), fb(0.0), fb(24000.0), fb(20.0))
    );

    // Should be removed
    t.feature_name = "NegControlProbe_test".to_string();
    assert_eq!(true, exclude_feature_names(&t));
    assert_eq!(
        false,
        filter_transcripts(&t, fb(0.0), fb(24000.0), fb(0.0), fb(24000.0), fb(20.0))
    );

    // Should NOT be removed: the prefix is not at position 0
    t.feature_name = "1_NegControlProbe_test".to_string();
    assert_eq!(false, exclude_feature_names(&t));
    assert_eq!(
        true,
        filter_transcripts(&t, fb(0.0), fb(24000.0), fb(0.0), fb(24000.0), fb(20.0))
    );
}

/// Moves an f32 to the next representable value below it.
fn next_below(x: f32) -> f32 {
    f32::from_bits(x.to_bits() - 1)
}

/// Moves an f32 to the next representable value above it.
fn next_above(x: f32) -> f32 {
    f32::from_bits(x.to_bits() + 1)
}

fn keep(t: &Transcript) -> bool {
    filter_transcripts(t, fb(10.0), fb(20.0), fb(10.0), fb(20.0), fb(20.0))
}

#[test]
fn bounds_inclusive_both_ends_x() {
    let mut t = test_transcript();
    t.y_location = fb(15.0);
    t.x_location = fb(10.0);
    assert!(keep(&t));
    t.x_location = fb(20.0);
    assert!(keep(&t));
    t.x_location = fb(next_below(10.0));
    assert!(!keep(&t));
    t.x_location = fb(next_above(20.0));
    assert!(!keep(&t));
}

#[test]
fn bounds_inclusive_both_ends_y() {
    let mut t = test_transcript();
    t.x_location = fb(15.0);
    t.y_location = fb(10.0);
    assert!(keep(&t));
    t.y_location = fb(20.0);
    assert!(keep(&t));
    t.y_location = fb(next_below(10.0));
    assert!(!keep(&t));
    t.y_location = fb(next_above(20.0));
    assert!(!keep(&t));
}

#[test]
fn qv_lower_bound_no_upper_bound() {
    let mut t = test_transcript();
    t.x_location = fb(15.0);
    t.y_location = fb(15.0);
    t.qv = fb(20.0);
    assert!(keep(&t));
    t.qv = fb(next_below(20.0));
    assert!(!keep(&t));
    t.qv = fb(f32::MAX);
    assert!(keep(&t));
    t.qv = fb(f32::INFINITY);
    assert!(keep(&t));
}

#[test]
fn nan_fails_its_comparison() {
    let mut t = test_transcript();
    t.x_location = fb(15.0);
    t.y_location = fb(15.0);
    t.qv = fb(f32::NAN);
    assert!(!keep(&t));
    t.qv = fb(25.0);
    t.x_location = fb(f32::NAN);
    assert!(!keep(&t));
    t.x_location = fb(15.0);
    t.y_location = fb(f32::NAN);
    assert!(!keep(&t));
}

#[test]
fn negative_zero_equals_positive_zero() {
    // A coordinate of -0.0 sits on an inclusive bound of 0.0: kept,
    // as under IEEE comparison where the two zeros are equal.
    let mut t = test_transcript();
    t.x_location = fb(-0.0);
    t.y_location = fb(0.0);
    assert!(filter_transcripts(
        &t,
        fb(0.0),
        fb(24000.0),
        fb(-0.0),
        fb(24000.0),
        fb(20.0)
    ));
}

#[test]
fn all_four_control_prefixes_excluded() {
    let mut t = test_transcript();
    for name in [
        "BLANK_x",
        "NegControlProbe_x",
        "NegControlCodeword_x",
        "antisense_x",
    ] {
        t.feature_name = name.to_string();
        assert_eq!(true, exclude_feature_names(&t), "{name}");
    }
    // Anchored at position 0 and case-sensitive: none of these match.
    for name in ["1_NegControlProbe_test", "blank_test", "xBLANK_x", "BLANK"] {
        t.feature_name = name.to_string();
        assert_eq!(false, exclude_feature_names(&t), "{name}");
    }
}
