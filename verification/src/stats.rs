//! What Detection Stats record per frame, and the scene list they stand for.
use vstd::prelude::*;
use vstd::string::StringExecFns;

use crate::model::{BoundaryCandidateStatus, DetectionStatsDecision, FrameIndex, FrameRate, SceneBoundary, SceneList, SceneSpan};
use crate::scene_list::{
    boundary_frames, lemma_scene_starts, lemma_sorted_distinct_is, same_values, scene_start_frames,
    scene_starts, spans_between_starts, split_at_starts, strictly_increasing,
};
use crate::text::same_text;
use crate::timeline::{lemma_scene_before, partitions};

verus! {

/// The frame and the decision of one Detection Stats row.
#[derive(Debug, Clone, Copy, PartialEq, Eq, Structural)]
pub struct RowDecision {
    pub frame: u64,
    pub decision: DetectionStatsDecision,
}

/// The schema versions that can be read, and the document kind.
pub open spec fn valid_header(schema_version: u32, kind: Seq<char>) -> bool {
    1 <= schema_version <= 2 && kind == "detection_stats"@
}

pub open spec fn invalid_document_text() -> Seq<char> {
    "invalid Detection Stats document"@
}

/// Checks the header of a Detection Stats document.
pub fn validate_detection_stats(schema_version: u32, kind: &str) -> (result: Result<(), String>)
    ensures
        valid_header(schema_version, kind@) ==> result is Ok,
        !valid_header(schema_version, kind@) ==> (result matches Err(message) && message@
            == invalid_document_text()),
{
    if !(1 <= schema_version && schema_version <= 2) || !same_text(kind, "detection_stats") {
        return Err(<String as StringExecFns>::from_str("invalid Detection Stats document"));
    }
    Ok(())
}

/// The accepted rows strictly inside the video, as boundaries, in row order.
pub open spec fn accepted_boundaries(rows: Seq<RowDecision>, total_frames: u64) -> Seq<SceneBoundary>
    decreases rows.len(),
{
    if rows.len() == 0 {
        Seq::empty()
    } else {
        let before = accepted_boundaries(rows.drop_last(), total_frames);
        let row = rows.last();
        if row.decision == DetectionStatsDecision::Accepted && 0 < row.frame < total_frames {
            before.push(SceneBoundary { frame: FrameIndex(row.frame) })
        } else {
            before
        }
    }
}

/// The scenes that Detection Stats stand for: split at frame 0 and at every
/// accepted frame inside the video.
pub open spec fn stats_scene_spans(total_frames: u64, rows: Seq<RowDecision>) -> Seq<SceneSpan> {
    if total_frames == 0 {
        Seq::empty()
    } else {
        split_at_starts(scene_starts(accepted_boundaries(rows, total_frames)), total_frames)
    }
}

/// The scene list recorded in a Detection Stats document.
pub fn scene_list_from_detection_stats(
    schema_version: u32,
    kind: &str,
    frame_rate: FrameRate,
    total_frames: u64,
    rows: &Vec<RowDecision>,
) -> (result: Result<SceneList, String>)
    ensures
        valid_header(schema_version, kind@) ==> (result matches Ok(list) && list.frame_rate
            == frame_rate && list.scenes@ == stats_scene_spans(total_frames, rows@)),
        !valid_header(schema_version, kind@) ==> (result matches Err(message) && message@
            == invalid_document_text()),
{
    validate_detection_stats(schema_version, kind)?;
    if total_frames == 0 {
        let list = SceneList { frame_rate, scenes: Vec::new() };
        assert(list.scenes@ =~= stats_scene_spans(total_frames, rows@));
        return Ok(list);
    }
    let mut boundaries: Vec<SceneBoundary> = Vec::new();
    let mut i: usize = 0;
    while i < rows.len()
        invariant
            i <= rows@.len(),
            boundaries@ == accepted_boundaries(rows@.take(i as int), total_frames),
        decreases rows@.len() - i,
    {
        let row = rows[i];
        assert(rows@.take(i + 1).drop_last() =~= rows@.take(i as int));
        if row.decision == DetectionStatsDecision::Accepted && 0 < row.frame && row.frame
            < total_frames {
            boundaries.push(SceneBoundary { frame: FrameIndex(row.frame) });
        }
        i = i + 1;
    }
    assert(rows@.take(i as int) =~= rows@);
    let starts = scene_start_frames(&boundaries);
    let scenes = spans_between_starts(&starts, total_frames);
    Ok(SceneList { frame_rate, scenes })
}

/// The boundaries that the accepted rows stand for, in row order.
pub open spec fn accepted_rows(rows: Seq<RowDecision>) -> Seq<SceneBoundary>
    decreases rows.len(),
{
    if rows.len() == 0 {
        Seq::empty()
    } else {
        let before = accepted_rows(rows.drop_last());
        if rows.last().decision == DetectionStatsDecision::Accepted {
            before.push(SceneBoundary { frame: FrameIndex(rows.last().frame) })
        } else {
            before
        }
    }
}

/// The boundaries of the rows that a detector accepted.
pub fn accepted_row_boundaries(rows: &Vec<RowDecision>) -> (boundaries: Vec<SceneBoundary>)
    ensures
        boundaries@ == accepted_rows(rows@),
{
    let mut boundaries: Vec<SceneBoundary> = Vec::new();
    let mut i: usize = 0;
    while i < rows.len()
        invariant
            i <= rows@.len(),
            boundaries@ == accepted_rows(rows@.take(i as int)),
        decreases rows@.len() - i,
    {
        assert(rows@.take(i + 1).drop_last() =~= rows@.take(i as int));
        if rows[i].decision == DetectionStatsDecision::Accepted {
            boundaries.push(SceneBoundary { frame: FrameIndex(rows[i].frame) });
        }
        i = i + 1;
    }
    assert(rows@.take(i as int) =~= rows@);
    boundaries
}

/// How a recorded decision reads as the status of a boundary candidate.
pub open spec fn status_of_decision(decision: DetectionStatsDecision) -> BoundaryCandidateStatus {
    match decision {
        DetectionStatsDecision::Accepted => BoundaryCandidateStatus::Accepted,
        DetectionStatsDecision::SuppressedMinSceneLen => BoundaryCandidateStatus::SuppressedMinSceneLen,
        _ => BoundaryCandidateStatus::NearMiss,
    }
}

pub fn candidate_status_for_decision(decision: DetectionStatsDecision) -> (status: BoundaryCandidateStatus)
    ensures
        status == status_of_decision(decision),
{
    match decision {
        DetectionStatsDecision::Accepted => BoundaryCandidateStatus::Accepted,
        DetectionStatsDecision::SuppressedMinSceneLen => BoundaryCandidateStatus::SuppressedMinSceneLen,
        DetectionStatsDecision::BelowThreshold | DetectionStatsDecision::NotEvaluated => BoundaryCandidateStatus::NearMiss,
    }
}

/// Some scene but the first starts at `frame`.
pub open spec fn starts_later_scene(scenes: Seq<SceneSpan>, frame: u64) -> bool {
    exists|i: int| 1 <= i < scenes.len() && #[trigger] scenes[i].start.0 == frame
}

/// The decision recorded for a frame: frame 0 is never evaluated; a frame where
/// a scene starts was accepted; another candidate was suppressed by the minimum
/// scene length; anything else stayed below the threshold.
pub open spec fn row_decision(scenes: Seq<SceneSpan>, frame: u64, candidate: bool) -> DetectionStatsDecision {
    if frame == 0 {
        DetectionStatsDecision::NotEvaluated
    } else if starts_later_scene(scenes, frame) {
        DetectionStatsDecision::Accepted
    } else if candidate {
        DetectionStatsDecision::SuppressedMinSceneLen
    } else {
        DetectionStatsDecision::BelowThreshold
    }
}

/// Decides the row for `frame` of a detection whose scene list is `scene_list`;
/// `candidate` tells whether the frame's score reached the detector's threshold.
pub fn stats_row_decision(scene_list: &SceneList, frame: u64, candidate: bool) -> (decision:
    DetectionStatsDecision)
    ensures
        decision == row_decision(scene_list.scenes@, frame, candidate),
{
    if frame == 0 {
        return DetectionStatsDecision::NotEvaluated;
    }
    let scenes = &scene_list.scenes;
    let mut i: usize = 1;
    while i < scenes.len()
        invariant
            1 <= i,
            frame != 0,
            scenes@ == scene_list.scenes@,
            forall|j: int| 1 <= j < i && j < scenes@.len() ==> #[trigger] scenes@[j].start.0 != frame,
        decreases scenes@.len() - i,
    {
        if scenes[i].start.0 == frame {
            assert(scenes@[i as int].start.0 == frame);
            return DetectionStatsDecision::Accepted;
        }
        i = i + 1;
    }
    if candidate {
        DetectionStatsDecision::SuppressedMinSceneLen
    } else {
        DetectionStatsDecision::BelowThreshold
    }
}

/// The number of frames that Detection Stats record: where the last scene ends,
/// or, without scenes, the number of rows.
pub fn detection_stats_total_frames(scene_list: &SceneList, row_count: usize) -> (total: u64)
    ensures
        total == if scene_list.scenes@.len() > 0 {
            scene_list.scenes@.last().end.0
        } else {
            row_count as u64
        },
{
    let n = scene_list.scenes.len();
    if n > 0 {
        scene_list.scenes[n - 1].end.0
    } else {
        row_count as u64
    }
}

/// A frame is among the accepted boundaries exactly when some row accepted it
/// and it lies strictly inside the video.
proof fn lemma_accepted_boundaries(rows: Seq<RowDecision>, total_frames: u64, x: u64)
    ensures
        boundary_frames(accepted_boundaries(rows, total_frames)).contains(x) <==> exists|i: int|
            0 <= i < rows.len() && #[trigger] rows[i].frame == x && rows[i].decision
                == DetectionStatsDecision::Accepted && 0 < x < total_frames,
    decreases rows.len(),
{
    if rows.len() > 0 {
        let rest = rows.drop_last();
        lemma_accepted_boundaries(rest, total_frames, x);
        let before = accepted_boundaries(rest, total_frames);
        let all = accepted_boundaries(rows, total_frames);
        let row = rows.last();
        if row.decision == DetectionStatsDecision::Accepted && 0 < row.frame < total_frames {
            assert(boundary_frames(all) =~= boundary_frames(before).push(row.frame));
        } else {
            assert(boundary_frames(all) =~= boundary_frames(before));
        }
        if exists|i: int|
            0 <= i < rows.len() && #[trigger] rows[i].frame == x && rows[i].decision
                == DetectionStatsDecision::Accepted && 0 < x < total_frames {
            let i = choose|i: int|
                0 <= i < rows.len() && #[trigger] rows[i].frame == x && rows[i].decision
                    == DetectionStatsDecision::Accepted && 0 < x < total_frames;
            if i < rows.len() - 1 {
                assert(rest[i].frame == x);
                assert(boundary_frames(before).contains(x));
                let k = choose|k: int|
                    0 <= k < boundary_frames(before).len() && boundary_frames(before)[k] == x;
                assert(boundary_frames(all)[k] == x);
            } else {
                let m = boundary_frames(all).len() - 1;
                assert(boundary_frames(all)[m] == x);
            }
        }
        if boundary_frames(all).contains(x) {
            if boundary_frames(before).contains(x) {
                let i = choose|i: int|
                    0 <= i < rest.len() && #[trigger] rest[i].frame == x && rest[i].decision
                        == DetectionStatsDecision::Accepted && 0 < x < total_frames;
                assert(rows[i] == rest[i]);
                assert(rows[i].frame == x);
            } else {
                let last = rows.len() - 1;
                assert(row.decision == DetectionStatsDecision::Accepted && 0 < row.frame
                    < total_frames);
                assert(x == row.frame);
                assert(rows[last].frame == x);
            }
        }
    } else {
        assert(boundary_frames(accepted_boundaries(rows, total_frames)).len() == 0);
    }
}

/// The first frames of the scenes, in order.
pub open spec fn scene_start_sequence(scenes: Seq<SceneSpan>) -> Seq<u64> {
    scenes.map_values(|s: SceneSpan| s.start.0)
}

/// Law: Detection Stats written for a scene list that covers the video read back
/// as that same scene list, provided every scene start has a row and each row's
/// decision was made against that scene list.
pub proof fn law_detection_stats_reproduce_scene_list(
    scenes: Seq<SceneSpan>,
    total_frames: u64,
    rows: Seq<RowDecision>,
    candidates: Seq<bool>,
)
    requires
        partitions(scenes, total_frames as nat),
        candidates.len() == rows.len(),
        forall|i: int|
            0 <= i < rows.len() ==> #[trigger] rows[i].decision == row_decision(
                scenes,
                rows[i].frame,
                candidates[i],
            ),
        forall|j: int|
            0 <= j < scenes.len() ==> exists|i: int|
                0 <= i < rows.len() && #[trigger] rows[i].frame == #[trigger] scenes[j].start.0,
    ensures
        stats_scene_spans(total_frames, rows) == scenes,
{
    let n = scenes.len() as int;
    let starts = scene_start_sequence(scenes);
    let accepted = accepted_boundaries(rows, total_frames);
    let all = seq![0u64] + boundary_frames(accepted);
    assert(total_frames > 0) by {
        assert(scenes[0].start.0 < scenes[0].end.0);
        if n > 1 {
            lemma_scene_before(scenes, total_frames as nat, 0, n - 1);
        }
    }
    assert forall|i: int, j: int| 0 <= i < j < starts.len() implies starts[i] < starts[j] by {
        lemma_scene_before(scenes, total_frames as nat, i, j);
    }
    assert forall|j: int| 0 <= j < n implies scenes[j].start.0 < total_frames by {
        if j < n - 1 {
            lemma_scene_before(scenes, total_frames as nat, j, n - 1);
        }
    }
    assert forall|x: u64| starts.contains(x) <==> all.contains(x) by {
        lemma_accepted_boundaries(rows, total_frames, x);
        if starts.contains(x) {
            let j = choose|j: int| 0 <= j < starts.len() && starts[j] == x;
            if j == 0 {
                assert(all[0] == x);
            } else {
                assert(starts[0] < starts[j]);
                let i = choose|i: int|
                    0 <= i < rows.len() && #[trigger] rows[i].frame == #[trigger] scenes[j].start.0;
                assert(starts_later_scene(scenes, x));
                assert(rows[i].decision == DetectionStatsDecision::Accepted);
                assert(boundary_frames(accepted).contains(x));
                let k = choose|k: int|
                    0 <= k < boundary_frames(accepted).len() && boundary_frames(accepted)[k] == x;
                assert(all[k + 1] == x);
            }
        }
        if all.contains(x) {
            let k = choose|k: int| 0 <= k < all.len() && all[k] == x;
            if k == 0 {
                assert(starts[0] == x);
            } else {
                assert(boundary_frames(accepted)[k - 1] == x);
                assert(boundary_frames(accepted).contains(x));
                let i = choose|i: int|
                    0 <= i < rows.len() && #[trigger] rows[i].frame == x && rows[i].decision
                        == DetectionStatsDecision::Accepted && 0 < x < total_frames;
                assert(rows[i].decision == row_decision(scenes, x, candidates[i]));
                assert(starts_later_scene(scenes, x));
                let j = choose|j: int| 1 <= j < scenes.len() && #[trigger] scenes[j].start.0 == x;
                assert(starts[j] == x);
            }
        }
    }
    lemma_sorted_distinct_is(starts, all);
    let split = split_at_starts(starts, total_frames);
    assert forall|i: int| 0 <= i < n implies #[trigger] split[i] == scenes[i] by {
        if i + 1 < n {
            assert(scenes[i].end == scenes[i + 1].start);
        }
    }
    assert(split =~= scenes);
}

} // verus!
