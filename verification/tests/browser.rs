use scenedetect::browser::{
    browser_options, check_browser_counts, check_frame_buffer, record_signature, SessionSlots,
    MAX_BROWSER_SIGNATURES,
};
use scenedetect::detector::{hash_metric_name, histogram_metric_name, metric_names, DetectorKind};
use scenedetect::model::{FrameIndex, MinSceneLenPolicy, SceneDetectError};
use scenedetect::similarity::FrameVisualSignature;

#[test]
fn handles_name_the_sessions_they_were_given_for() {
    let mut slots: SessionSlots<&str> = SessionSlots::new();
    let first = slots.insert("first");
    let second = slots.insert("second");
    assert_eq!((first, second), (1, 2));
    assert_eq!(slots.take(first), Ok("first"));
    assert_eq!(slots.take(first), Err("unknown or finished session handle".to_owned()));
    assert_eq!(slots.take(0), Err("invalid session handle".to_owned()));
    assert_eq!(slots.take(9), Err("unknown or finished session handle".to_owned()));
    // A free slot is reused.
    assert_eq!(slots.insert("third"), 1);
    let taken = slots.take(second).unwrap();
    slots.restore(second, taken);
    assert_eq!(slots.take(second), Ok("second"));
}

#[test]
fn frame_buffers_must_match_their_dimensions() {
    assert_eq!(check_frame_buffer("", 2, 2, 12), Ok(12));
    assert_eq!(check_frame_buffer("", 0, 2, 0), Err("frame dimensions must be non-zero".to_owned()));
    assert_eq!(
        check_frame_buffer("", 2, 2, 11),
        Err("RGB buffer length mismatch: expected 12, received 11".to_owned())
    );
    assert_eq!(
        check_frame_buffer("similarity ", 1, 0, 0),
        Err("similarity frame dimensions must be non-zero".to_owned())
    );
    assert_eq!(
        check_frame_buffer("", u32::MAX, u32::MAX, 0),
        Err("frame dimensions overflow RGB buffer size".to_owned())
    );
}

#[test]
fn similarity_samples_must_come_in_order() {
    let mut recorded = Vec::new();
    let sample = |frame: u64| FrameVisualSignature { frame: FrameIndex(frame), hash: frame };
    assert_eq!(record_signature(&mut recorded, sample(3)), Ok(()));
    assert_eq!(
        record_signature(&mut recorded, sample(3)),
        Err("scene similarity sample indexes must increase".to_owned())
    );
    assert_eq!(record_signature(&mut recorded, sample(4)), Ok(()));
    assert_eq!(recorded.len(), 2);
    let mut full: Vec<FrameVisualSignature> = (0..MAX_BROWSER_SIGNATURES as u64).map(sample).collect();
    assert_eq!(
        record_signature(&mut full, sample(u64::MAX)),
        Err("scene similarity accepts at most 200000 analyzed samples".to_owned())
    );
}

#[test]
fn browser_options_replace_the_defaults() {
    let options = browser_options(None, None).unwrap();
    assert_eq!(options.min_scene_len, 15);
    let options = browser_options(Some(3), Some("merge_last")).unwrap();
    assert_eq!(options.min_scene_len, 3);
    assert_eq!(options.min_scene_len_policy, MinSceneLenPolicy::MergeLast);
    assert_eq!(
        browser_options(None, Some("drop")),
        Err("unsupported minimum scene length policy: drop".to_owned())
    );
}

#[test]
fn browser_config_rejects_invalid_adaptive_window() {
    assert_eq!(
        check_browser_counts(DetectorKind::Adaptive, Some(0), None, None, None),
        Err("adaptive frame_window must be at least 1".to_owned())
    );
    assert_eq!(check_browser_counts(DetectorKind::Adaptive, Some(2), None, None, None), Ok(()));
    assert_eq!(
        check_browser_counts(DetectorKind::Histogram, None, Some(0), None, None),
        Err("histogram bins must be at least 1".to_owned())
    );
    assert_eq!(
        check_browser_counts(DetectorKind::Hash, None, None, Some(8), Some(0)),
        Err("hash lowpass must be at least 1".to_owned())
    );
    assert_eq!(check_browser_counts(DetectorKind::Content, Some(0), Some(0), None, None), Ok(()));
}

#[test]
fn detectors_are_named() {
    assert_eq!(DetectorKind::from_browser_name("histogram"), Ok(DetectorKind::Histogram));
    assert_eq!(
        DetectorKind::from_browser_name("hist"),
        Err("unsupported detector: hist".to_owned())
    );
    assert_eq!(DetectorKind::Histogram.name(), "hist");
    assert_eq!(DetectorKind::Adaptive.name(), "adaptive");
    assert!(DetectorKind::Content.review_support().is_ok());
    match DetectorKind::Threshold.review_support() {
        Err(SceneDetectError::UnsupportedBoundaryReview(name)) => assert_eq!(name, "detect-threshold"),
        other => panic!("unexpected result: {other:?}"),
    }
}

#[test]
fn metric_names_carry_detector_settings() {
    assert_eq!(histogram_metric_name(0), "hist_diff [bins=1]");
    assert_eq!(histogram_metric_name(256), "hist_diff [bins=256]");
    assert_eq!(hash_metric_name(16, 2), "hash_dist [size=16 lowpass=2]");
    assert_eq!(metric_names(DetectorKind::Adaptive, 0, 0, 0), vec!["adaptive_ratio", "content_val"]);
    assert_eq!(metric_names(DetectorKind::Threshold, 0, 0, 0), vec!["average_rgb"]);
}
