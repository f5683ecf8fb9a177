//! The scenes on either side of a boundary candidate.
use vstd::prelude::*;

use crate::model::{FrameIndex, ReviewSceneContext, SceneList, SceneSpan};

verus! {

/// Scene `i` starts at `frame`, and `frame` is not the first frame.
pub open spec fn starts_at_later_frame(scene: SceneSpan, frame: u64) -> bool {
    scene.start.0 == frame && frame > 0
}

/// Scene `i` holds `frame`.
pub open spec fn holds_frame(scene: SceneSpan, frame: u64) -> bool {
    scene.start.0 <= frame < scene.end.0
}

/// The index of the first scene at or after `from` that starts at `frame` (with
/// `frame > 0`), or the number of scenes if there is none.
pub open spec fn first_scene_starting_at(scenes: Seq<SceneSpan>, frame: u64, from: int) -> int
    decreases scenes.len() - from,
{
    if from < 0 || from >= scenes.len() {
        scenes.len() as int
    } else if starts_at_later_frame(scenes[from], frame) {
        from
    } else {
        first_scene_starting_at(scenes, frame, from + 1)
    }
}

/// The index of the first scene at or after `from` that holds `frame`, or the
/// number of scenes if there is none.
pub open spec fn first_scene_holding(scenes: Seq<SceneSpan>, frame: u64, from: int) -> int
    decreases scenes.len() - from,
{
    if from < 0 || from >= scenes.len() {
        scenes.len() as int
    } else if holds_frame(scenes[from], frame) {
        from
    } else {
        first_scene_holding(scenes, frame, from + 1)
    }
}

/// The review context spanning a whole scene.
pub open spec fn context_of(scene: SceneSpan) -> ReviewSceneContext {
    ReviewSceneContext { start: scene.start, end: scene.end }
}

/// The scene before and the scene after a boundary candidate at `frame`:
/// - with no scenes, two empty contexts at frame 0;
/// - if a scene starts at `frame` (and `frame > 0`), the scene before it and that scene;
/// - otherwise the scene holding `frame` (or the last scene), cut in two at `frame`.
pub open spec fn review_context_spec(scenes: Seq<SceneSpan>, frame: u64) -> (
    ReviewSceneContext,
    ReviewSceneContext,
) {
    let zero = ReviewSceneContext { start: FrameIndex(0), end: FrameIndex(0) };
    let s = first_scene_starting_at(scenes, frame, 0);
    let h = first_scene_holding(scenes, frame, 0);
    if scenes.len() == 0 {
        (zero, zero)
    } else if s < scenes.len() {
        (context_of(scenes[s - 1]), context_of(scenes[s]))
    } else {
        let scene = if h < scenes.len() {
            scenes[h]
        } else {
            scenes.last()
        };
        (
            ReviewSceneContext { start: scene.start, end: FrameIndex(frame) },
            ReviewSceneContext { start: FrameIndex(frame), end: scene.end },
        )
    }
}

proof fn lemma_first_scene_starting_at_bounds(scenes: Seq<SceneSpan>, frame: u64, from: int)
    requires
        0 <= from <= scenes.len(),
    ensures
        from <= first_scene_starting_at(scenes, frame, from) <= scenes.len(),
        first_scene_starting_at(scenes, frame, from) < scenes.len() ==> starts_at_later_frame(
            scenes[first_scene_starting_at(scenes, frame, from)],
            frame,
        ),
    decreases scenes.len() - from,
{
    if from < scenes.len() && !starts_at_later_frame(scenes[from], frame) {
        lemma_first_scene_starting_at_bounds(scenes, frame, from + 1);
    }
}

/// The first scene that starts at a later frame is not scene 0.
pub open spec fn review_context_is_defined(scenes: Seq<SceneSpan>, frame: u64) -> bool {
    scenes.len() > 0 ==> !starts_at_later_frame(scenes[0], frame)
}

/// The scenes on either side of a boundary candidate at `frame`.
pub fn review_context(scene_list: &SceneList, frame: FrameIndex) -> (contexts: (
    ReviewSceneContext,
    ReviewSceneContext,
))
    requires
        review_context_is_defined(scene_list.scenes@, frame.0),
    ensures
        contexts == review_context_spec(scene_list.scenes@, frame.0),
{
    let scenes = &scene_list.scenes;
    let ghost s = scenes@;
    if scenes.len() == 0 {
        return (
            ReviewSceneContext { start: FrameIndex(0), end: FrameIndex(0) },
            ReviewSceneContext { start: FrameIndex(0), end: FrameIndex(0) },
        );
    }
    let mut i: usize = 0;
    while i < scenes.len() && !(scenes[i].start.0 == frame.0 && frame.0 > 0)
        invariant
            s == scenes@,
            i <= s.len(),
            first_scene_starting_at(s, frame.0, 0) == first_scene_starting_at(s, frame.0, i as int),
        decreases s.len() - i,
    {
        i = i + 1;
    }
    if i < scenes.len() {
        proof {
            assert(first_scene_starting_at(s, frame.0, i as int) == i);
        }
        let before = scenes[i - 1];
        let after = scenes[i];
        return (
            ReviewSceneContext { start: before.start, end: before.end },
            ReviewSceneContext { start: after.start, end: after.end },
        );
    }
    let mut j: usize = 0;
    while j < scenes.len() && !(scenes[j].start.0 <= frame.0 && frame.0 < scenes[j].end.0)
        invariant
            s == scenes@,
            j <= s.len(),
            first_scene_holding(s, frame.0, 0) == first_scene_holding(s, frame.0, j as int),
        decreases s.len() - j,
    {
        j = j + 1;
    }
    let containing = if j < scenes.len() {
        scenes[j]
    } else {
        scenes[scenes.len() - 1]
    };
    (
        ReviewSceneContext { start: containing.start, end: frame },
        ReviewSceneContext { start: frame, end: containing.end },
    )
}

/// Law: in a scene list whose scenes follow one another without gaps, the
/// context before a candidate ends exactly where the context after it starts,
/// and that is the candidate's frame.
pub proof fn law_review_contexts_meet_at_candidate(scenes: Seq<SceneSpan>, frame: u64)
    requires
        scenes.len() > 0,
        review_context_is_defined(scenes, frame),
        forall|i: int| 0 <= i < scenes.len() - 1 ==> #[trigger] scenes[i].end == scenes[i + 1].start,
    ensures
        review_context_spec(scenes, frame).0.end == review_context_spec(scenes, frame).1.start,
        review_context_spec(scenes, frame).1.start.0 == frame,
{
    lemma_first_scene_starting_at_bounds(scenes, frame, 0);
    let s = first_scene_starting_at(scenes, frame, 0);
    if s < scenes.len() {
        assert(s != 0);
        assert(scenes[s - 1].end == scenes[s].start);
    }
}

proof fn lemma_first_holding_is(scenes: Seq<SceneSpan>, frame: u64, from: int, i: int)
    requires
        0 <= from <= i < scenes.len(),
        holds_frame(scenes[i], frame),
        forall|k: int| from <= k < i ==> !#[trigger] holds_frame(scenes[k], frame),
    ensures
        first_scene_holding(scenes, frame, from) == i,
    decreases i - from,
{
    if from < i {
        lemma_first_holding_is(scenes, frame, from + 1, i);
    }
}

proof fn lemma_first_starting_is(scenes: Seq<SceneSpan>, frame: u64, from: int, i: int)
    requires
        0 <= from <= i <= scenes.len(),
        i < scenes.len() ==> starts_at_later_frame(scenes[i], frame),
        forall|k: int| from <= k < i ==> !#[trigger] starts_at_later_frame(scenes[k], frame),
    ensures
        first_scene_starting_at(scenes, frame, from) == i,
    decreases i - from,
{
    if from < i {
        lemma_first_starting_is(scenes, frame, from + 1, i);
    }
}

/// Law: a candidate inside a scene (the first scene that holds its frame), where
/// no scene starts, cuts that scene in two: the context before runs from the
/// scene's start to the candidate, the context after from the candidate to the
/// scene's end.
pub proof fn law_review_context_cuts_the_scene_that_holds_the_candidate(
    scenes: Seq<SceneSpan>,
    frame: u64,
    i: int,
)
    requires
        0 <= i < scenes.len(),
        scenes[i].start.0 <= frame < scenes[i].end.0,
        forall|k: int| 0 <= k < i ==> !(#[trigger] scenes[k].start.0 <= frame && frame < scenes[k].end.0),
        forall|k: int| 0 <= k < scenes.len() ==> !(#[trigger] scenes[k].start.0 == frame && frame > 0),
    ensures
        review_context_spec(scenes, frame).0 == (ReviewSceneContext {
            start: scenes[i].start,
            end: FrameIndex(frame),
        }),
        review_context_spec(scenes, frame).1 == (ReviewSceneContext {
            start: FrameIndex(frame),
            end: scenes[i].end,
        }),
{
    assert forall|k: int| 0 <= k < i implies !#[trigger] holds_frame(scenes[k], frame) by {
        assert(!(scenes[k].start.0 <= frame && frame < scenes[k].end.0));
    }
    lemma_first_holding_is(scenes, frame, 0, i);
    assert forall|k: int| 0 <= k < scenes.len() implies !#[trigger] starts_at_later_frame(
        scenes[k],
        frame,
    ) by {
        assert(!(scenes[k].start.0 == frame && frame > 0));
    }
    lemma_first_starting_is(scenes, frame, 0, scenes.len() as int);
}

/// Law: a candidate at the first frame of a later scene (the first scene that
/// starts there; frame 0 is never a boundary) has the scene before it as its context before and that scene
/// as its context after.
pub proof fn law_review_context_at_a_scene_start(scenes: Seq<SceneSpan>, frame: u64, i: int)
    requires
        0 < i < scenes.len(),
        frame > 0,
        scenes[i].start.0 == frame,
        forall|k: int| 0 <= k < i ==> #[trigger] scenes[k].start.0 != frame,
    ensures
        review_context_spec(scenes, frame).0 == (ReviewSceneContext {
            start: scenes[i - 1].start,
            end: scenes[i - 1].end,
        }),
        review_context_spec(scenes, frame).1 == (ReviewSceneContext {
            start: scenes[i].start,
            end: scenes[i].end,
        }),
{
    assert forall|k: int| 0 <= k < i implies !#[trigger] starts_at_later_frame(scenes[k], frame) by {
        assert(scenes[k].start.0 != frame);
    }
    lemma_first_starting_is(scenes, frame, 0, i);
}

} // verus!
