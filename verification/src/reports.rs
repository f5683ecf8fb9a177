//! What the command line reports about stored Detection Stats and timelines.
use vstd::prelude::*;

use crate::model::SceneList;
use crate::timeline::SceneTimeline;
use crate::timing::MediaTime;

verus! {

/// What `inspect` is asked for: the video or its Detection Stats, and whether
/// to answer in JSON.
#[derive(Debug, Clone, PartialEq, Eq)]
pub struct InspectArgs {
    pub input: String,
    pub json: bool,
}

/// The number of scene boundaries in a scene list: one fewer than its scenes.
pub fn scene_boundary_count(scene_list: &SceneList) -> (count: usize)
    ensures
        count == if scene_list.scenes@.len() > 0 {
            scene_list.scenes@.len() - 1
        } else {
            0
        },
{
    let n = scene_list.scenes.len();
    if n > 0 {
        n - 1
    } else {
        0
    }
}

/// One scene of a Scene Timeline document, numbered from 1.
#[derive(Debug, Clone, Copy, PartialEq, Eq, Structural)]
pub struct SceneTimelineSceneDocument {
    pub scene_number: usize,
    pub start_frame: u64,
    pub end_frame: u64,
    pub start_time: Option<MediaTime>,
    pub end_time: Option<MediaTime>,
}

/// The scenes of a timeline as they are written out.
pub fn timeline_scene_documents(timeline: &SceneTimeline) -> (documents: Vec<SceneTimelineSceneDocument>)
    requires
        timeline.scenes@.len() < usize::MAX,
    ensures
        documents@.len() == timeline.scenes@.len(),
        forall|i: int|
            0 <= i < documents@.len() ==> #[trigger] documents@[i] == (SceneTimelineSceneDocument {
                scene_number: (i + 1) as usize,
                start_frame: timeline.scenes@[i].start.0,
                end_frame: timeline.scenes@[i].end.0,
                start_time: timeline.scenes@[i].start_time,
                end_time: timeline.scenes@[i].end_time,
            }),
{
    let scenes = &timeline.scenes;
    let mut documents: Vec<SceneTimelineSceneDocument> = Vec::new();
    let mut i: usize = 0;
    while i < scenes.len()
        invariant
            scenes@ == timeline.scenes@,
            scenes@.len() < usize::MAX,
            i <= scenes@.len(),
            documents@.len() == i,
            forall|j: int|
                0 <= j < i ==> #[trigger] documents@[j] == (SceneTimelineSceneDocument {
                    scene_number: (j + 1) as usize,
                    start_frame: scenes@[j].start.0,
                    end_frame: scenes@[j].end.0,
                    start_time: scenes@[j].start_time,
                    end_time: scenes@[j].end_time,
                }),
        decreases scenes@.len() - i,
    {
        let scene = scenes[i];
        documents.push(
            SceneTimelineSceneDocument {
                scene_number: i + 1,
                start_frame: scene.start.0,
                end_frame: scene.end.0,
                start_time: scene.start_time,
                end_time: scene.end_time,
            },
        );
        i = i + 1;
    }
    documents
}

} // verus!
