use scenedetect::decisions::{AdaptiveSchedule, CandidateGate, CutGate, FadeReturn, FadeTracker};
use scenedetect::model::{BoundaryCandidateStatus, DetectionStatsDecision, FrameIndex, SceneBoundary};

fn frames(list: &[u64]) -> Vec<SceneBoundary> {
    list.iter().map(|f| SceneBoundary { frame: FrameIndex(*f) }).collect()
}

#[test]
fn content_gate_suppresses_candidates_closer_than_the_minimum() {
    let mut gate = CandidateGate::new(3);
    assert!(!gate.observe(FrameIndex(0), false));
    assert!(gate.observe(FrameIndex(3), true));
    // Too close to the last candidate; it still becomes the reference point.
    assert!(!gate.observe(FrameIndex(5), true));
    assert!(!gate.observe(FrameIndex(7), true));
    assert!(gate.observe(FrameIndex(10), true));
    let (boundaries, total) = gate.finish();
    assert_eq!(boundaries, frames(&[3, 10]));
    assert_eq!(total, 5);
}

#[test]
fn content_gate_reviews_candidates() {
    let mut gate = CandidateGate::new(2);
    assert_eq!(gate.review(FrameIndex(1), false, false), None);
    assert_eq!(gate.review(FrameIndex(2), true, false), Some(BoundaryCandidateStatus::NearMiss));
    assert_eq!(gate.review(FrameIndex(3), true, true), Some(BoundaryCandidateStatus::Accepted));
    assert_eq!(
        gate.review(FrameIndex(4), true, true),
        Some(BoundaryCandidateStatus::SuppressedMinSceneLen)
    );
    assert_eq!(gate.finish().0, frames(&[3]));
}

#[test]
fn content_gate_decides_detection_stats_rows() {
    let mut gate = CandidateGate::new(1);
    assert_eq!(gate.decide(FrameIndex(0), false, true), DetectionStatsDecision::NotEvaluated);
    assert_eq!(gate.decide(FrameIndex(1), true, false), DetectionStatsDecision::BelowThreshold);
    assert_eq!(gate.decide(FrameIndex(2), true, true), DetectionStatsDecision::Accepted);
    let mut strict = CandidateGate::new(5);
    assert_eq!(
        strict.decide(FrameIndex(2), true, true),
        DetectionStatsDecision::SuppressedMinSceneLen
    );
}

#[test]
fn cut_gate_measures_from_the_last_accepted_cut() {
    // Law: accepted cuts are at least the minimum scene length apart.
    let mut gate = CutGate::new(3);
    let cuts = [(1, true), (3, true), (4, true), (6, true), (7, false), (9, true)];
    let accepted: Vec<bool> = cuts.iter().map(|(f, c)| gate.observe(FrameIndex(*f), *c)).collect();
    assert_eq!(accepted, vec![false, true, false, true, false, true]);
    let (boundaries, total) = gate.finish();
    assert_eq!(boundaries, frames(&[3, 6, 9]));
    assert_eq!(total, 6);
    assert!(boundaries.windows(2).all(|pair| pair[1].frame.0 - pair[0].frame.0 >= 3));
}

#[test]
fn fade_tracker_cuts_when_the_picture_returns() {
    let mut tracker = FadeTracker::new(2);
    assert_eq!(tracker.observe(FrameIndex(0), false), None);
    assert_eq!(tracker.observe(FrameIndex(1), false), None);
    assert_eq!(tracker.observe(FrameIndex(2), true), None);
    assert_eq!(tracker.observe(FrameIndex(3), true), None);
    let fade = tracker.observe(FrameIndex(5), false).unwrap();
    assert_eq!(fade, FadeReturn { fade_out_frame: 2, duration: 3 });
    tracker.add_split(fade, 2);
    // The video ends dark, but too soon after the last cut for another scene.
    assert_eq!(tracker.observe(FrameIndex(9), true), None);
    let (boundaries, total) = tracker.finish(true);
    assert_eq!(boundaries, frames(&[4]));
    assert_eq!(total, 6);
}

#[test]
fn fade_tracker_respects_the_minimum_scene_length() {
    let mut tracker = FadeTracker::new(10);
    tracker.observe(FrameIndex(0), true);
    assert_eq!(tracker.observe(FrameIndex(3), false), None);
    let (boundaries, _) = tracker.finish(true);
    assert!(boundaries.is_empty());
    let mut tracker = FadeTracker::new(1);
    tracker.observe(FrameIndex(0), false);
    tracker.observe(FrameIndex(1), true);
    let (boundaries, _) = tracker.finish(false);
    assert!(boundaries.is_empty());
    // Ending dark adds the final fade out as a boundary when asked to.
    let mut tracker = FadeTracker::new(1);
    tracker.observe(FrameIndex(0), false);
    tracker.observe(FrameIndex(1), true);
    let (boundaries, _) = tracker.finish(true);
    assert_eq!(boundaries, frames(&[1]));
}

#[test]
fn adaptive_schedule_waits_for_a_full_window() {
    let mut schedule = AdaptiveSchedule::new(2, 1);
    schedule.push_frame();
    // Frame 0 is closer than the window to the start: decided at once, without a ratio.
    assert_eq!(schedule.next_ready(false), Some(false));
    schedule.decide(FrameIndex(0), false);
    schedule.push_frame();
    assert_eq!(schedule.next_ready(false), Some(false));
    schedule.decide(FrameIndex(1), false);
    schedule.push_frame();
    schedule.push_frame();
    // Frame 2 needs frames 0..=4.
    assert_eq!(schedule.next_ready(false), None);
    schedule.push_frame();
    assert_eq!(schedule.next_ready(false), Some(true));
    assert_eq!(schedule.keep_from(), 0);
    assert!(schedule.decide(FrameIndex(2), true));
    assert_eq!(schedule.keep_from(), 1);
    // At the end, the frames near the end are decided without a ratio.
    assert_eq!(schedule.next_ready(false), None);
    assert_eq!(schedule.next_ready(true), Some(false));
    assert_eq!(
        schedule.review(FrameIndex(3), true, true),
        Some(BoundaryCandidateStatus::Accepted)
    );
    assert_eq!(schedule.next_ready(true), Some(false));
    assert_eq!(schedule.review(FrameIndex(4), false, true), None);
    assert_eq!(schedule.next_ready(true), None);
    let (boundaries, total) = schedule.finish();
    assert_eq!(boundaries, frames(&[2, 3]));
    assert_eq!(total, 5);
}
