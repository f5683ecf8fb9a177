use scenedetect::model::{
    BoundaryCandidateStatus, DetectionOptions, DetectionStatsDecision, Frame, FrameIndex, FrameRate,
    MinSceneLenPolicy, ReviewSceneContext, SceneBoundary, SceneList, SceneSpan, Timecode,
};
use scenedetect::review::review_context;
use scenedetect::scene_list::build_scene_list;
use scenedetect::stats::{
    accepted_row_boundaries, candidate_status_for_decision, detection_stats_total_frames,
    scene_list_from_detection_stats, stats_row_decision, validate_detection_stats, RowDecision,
};

fn rate() -> FrameRate {
    FrameRate(10.0f64.to_bits())
}

fn span(start: u64, end: u64) -> SceneSpan {
    SceneSpan { start: FrameIndex(start), end: FrameIndex(end) }
}

fn boundaries(frames: &[u64]) -> Vec<SceneBoundary> {
    frames.iter().map(|f| SceneBoundary { frame: FrameIndex(*f) }).collect()
}

fn suppress(min_scene_len: u64) -> DetectionOptions {
    DetectionOptions { min_scene_len, min_scene_len_policy: MinSceneLenPolicy::Suppress }
}

#[test]
fn empty_video_has_no_scenes() {
    let list = build_scene_list(rate(), 0, boundaries(&[3]), suppress(15));
    assert!(list.scenes.is_empty());
    assert_eq!(list.frame_rate, rate());
}

#[test]
fn single_scene_spans_every_frame() {
    let list = build_scene_list(rate(), 5, Vec::new(), suppress(15));
    assert_eq!(list.scenes, vec![span(0, 5)]);
}

#[test]
fn boundaries_are_sorted_and_deduplicated() {
    let list = build_scene_list(rate(), 10, boundaries(&[7, 3, 7, 0]), suppress(1));
    assert_eq!(list.scenes, vec![span(0, 3), span(3, 7), span(7, 10)]);
}

#[test]
fn merge_last_joins_a_short_final_scene() {
    let options = DetectionOptions { min_scene_len: 4, min_scene_len_policy: MinSceneLenPolicy::MergeLast };
    let list = build_scene_list(rate(), 10, boundaries(&[5, 8]), options);
    assert_eq!(list.scenes, vec![span(0, 5), span(5, 10)]);
    let list = build_scene_list(rate(), 10, boundaries(&[5]), options);
    assert_eq!(list.scenes, vec![span(0, 5), span(5, 10)]);
}

#[test]
fn default_options_suppress_scenes_shorter_than_fifteen_frames() {
    let options = DetectionOptions::default();
    assert_eq!(options.min_scene_len, 15);
    assert_eq!(options.min_scene_len_policy, MinSceneLenPolicy::Suppress);
}

#[test]
fn review_context_splits_at_the_candidate() {
    let list = SceneList { frame_rate: rate(), scenes: vec![span(0, 4), span(4, 9)] };
    assert_eq!(
        review_context(&list, FrameIndex(4)),
        (
            ReviewSceneContext { start: FrameIndex(0), end: FrameIndex(4) },
            ReviewSceneContext { start: FrameIndex(4), end: FrameIndex(9) }
        )
    );
    assert_eq!(
        review_context(&list, FrameIndex(6)),
        (
            ReviewSceneContext { start: FrameIndex(4), end: FrameIndex(6) },
            ReviewSceneContext { start: FrameIndex(6), end: FrameIndex(9) }
        )
    );
    assert_eq!(
        review_context(&list, FrameIndex(20)),
        (
            ReviewSceneContext { start: FrameIndex(4), end: FrameIndex(20) },
            ReviewSceneContext { start: FrameIndex(20), end: FrameIndex(9) }
        )
    );
    let empty = SceneList { frame_rate: rate(), scenes: Vec::new() };
    let zero = ReviewSceneContext { start: FrameIndex(0), end: FrameIndex(0) };
    assert_eq!(review_context(&empty, FrameIndex(3)), (zero.clone(), zero));
}

#[test]
fn statuses_have_export_names() {
    assert_eq!(BoundaryCandidateStatus::Accepted.as_str(), "accepted");
    assert_eq!(BoundaryCandidateStatus::SuppressedMinSceneLen.as_str(), "suppressed_min_scene_len");
    assert_eq!(BoundaryCandidateStatus::NearMiss.as_str(), "near_miss");
}

#[test]
fn timecodes_count_frames_and_solid_frames_repeat_their_colour() {
    assert_eq!(Timecode::from_frames(42).frames(), 42);
    let frame = Frame::solid(3, 2, 1, [1, 2, 3]);
    assert_eq!(frame.index, FrameIndex(3));
    assert_eq!(frame.rgb, vec![1, 2, 3, 1, 2, 3]);
}

#[test]
fn generalized_rows_reconstruct_scene_list_and_stats() {
    let rows = vec![
        RowDecision { frame: 0, decision: DetectionStatsDecision::NotEvaluated },
        RowDecision { frame: 2, decision: DetectionStatsDecision::Accepted },
    ];
    let scene_list =
        scene_list_from_detection_stats(2, "detection_stats", rate(), 4, &rows).unwrap();
    assert_eq!(scene_list.scenes, vec![span(0, 2), span(2, 4)]);
    assert_eq!(rows.len(), 2);
}

#[test]
fn detection_stats_headers_are_checked() {
    assert!(validate_detection_stats(1, "detection_stats").is_ok());
    assert!(validate_detection_stats(2, "detection_stats").is_ok());
    assert_eq!(
        validate_detection_stats(3, "detection_stats"),
        Err("invalid Detection Stats document".to_owned())
    );
    assert_eq!(
        validate_detection_stats(2, "scene_list"),
        Err("invalid Detection Stats document".to_owned())
    );
    assert_eq!(
        scene_list_from_detection_stats(0, "detection_stats", rate(), 4, &Vec::new()),
        Err("invalid Detection Stats document".to_owned())
    );
}

#[test]
fn accepted_rows_outside_the_video_are_ignored() {
    let rows = vec![
        RowDecision { frame: 0, decision: DetectionStatsDecision::Accepted },
        RowDecision { frame: 3, decision: DetectionStatsDecision::Accepted },
        RowDecision { frame: 3, decision: DetectionStatsDecision::Accepted },
        RowDecision { frame: 2, decision: DetectionStatsDecision::SuppressedMinSceneLen },
        RowDecision { frame: 9, decision: DetectionStatsDecision::Accepted },
    ];
    let list = scene_list_from_detection_stats(1, "detection_stats", rate(), 5, &rows).unwrap();
    assert_eq!(list.scenes, vec![span(0, 3), span(3, 5)]);
    let empty = scene_list_from_detection_stats(1, "detection_stats", rate(), 0, &rows).unwrap();
    assert!(empty.scenes.is_empty());
}

#[test]
fn rows_are_decided_against_the_scene_list() {
    let list = SceneList { frame_rate: rate(), scenes: vec![span(0, 4), span(4, 9)] };
    assert_eq!(stats_row_decision(&list, 0, true), DetectionStatsDecision::NotEvaluated);
    assert_eq!(stats_row_decision(&list, 4, false), DetectionStatsDecision::Accepted);
    assert_eq!(stats_row_decision(&list, 5, true), DetectionStatsDecision::SuppressedMinSceneLen);
    assert_eq!(stats_row_decision(&list, 5, false), DetectionStatsDecision::BelowThreshold);
    assert_eq!(detection_stats_total_frames(&list, 3), 9);
    let empty = SceneList { frame_rate: rate(), scenes: Vec::new() };
    assert_eq!(detection_stats_total_frames(&empty, 3), 3);
}

#[test]
fn recorded_decisions_become_boundaries_and_statuses() {
    let rows = vec![
        RowDecision { frame: 0, decision: DetectionStatsDecision::NotEvaluated },
        RowDecision { frame: 2, decision: DetectionStatsDecision::Accepted },
        RowDecision { frame: 3, decision: DetectionStatsDecision::SuppressedMinSceneLen },
    ];
    assert_eq!(accepted_row_boundaries(&rows), boundaries(&[2]));
    assert_eq!(
        candidate_status_for_decision(DetectionStatsDecision::BelowThreshold),
        BoundaryCandidateStatus::NearMiss
    );
    assert_eq!(
        candidate_status_for_decision(DetectionStatsDecision::SuppressedMinSceneLen),
        BoundaryCandidateStatus::SuppressedMinSceneLen
    );
}

#[test]
fn detection_stats_round_trip_a_scene_list() {
    // Law: rows decided against a scene list read back as that scene list.
    let list = build_scene_list(rate(), 12, boundaries(&[4, 9]), suppress(1));
    let rows: Vec<RowDecision> = (0..12)
        .map(|frame| RowDecision { frame, decision: stats_row_decision(&list, frame, frame % 2 == 0) })
        .collect();
    let back = scene_list_from_detection_stats(2, "detection_stats", rate(), 12, &rows).unwrap();
    assert_eq!(back, list);
}
