use scenedetect::model::{FrameIndex, FrameRate, SceneList, SceneSpan};
use scenedetect::reports::{scene_boundary_count, timeline_scene_documents, SceneTimelineSceneDocument};
use scenedetect::timeline::{SceneTimeline, SceneTimelineSpan};
use scenedetect::timing::{MediaTime, TimeBase};

fn span(start: u64, end: u64) -> SceneSpan {
    SceneSpan {
        start: FrameIndex(start),
        end: FrameIndex(end),
    }
}

#[test]
fn boundary_count_is_one_fewer_than_scenes() {
    let list = SceneList {
        frame_rate: FrameRate(25.0f64.to_bits()),
        scenes: vec![span(0, 10), span(10, 25), span(25, 40)],
    };
    assert_eq!(scene_boundary_count(&list), 2);
}

#[test]
fn boundary_count_of_single_scene_is_zero() {
    let list = SceneList {
        frame_rate: FrameRate(25.0f64.to_bits()),
        scenes: vec![span(0, 10)],
    };
    assert_eq!(scene_boundary_count(&list), 0);
}

#[test]
fn boundary_count_of_empty_list_is_zero() {
    let list = SceneList {
        frame_rate: FrameRate(25.0f64.to_bits()),
        scenes: Vec::new(),
    };
    assert_eq!(scene_boundary_count(&list), 0);
}

#[test]
fn timeline_documents_number_scenes_from_one() {
    let base = TimeBase::new(1, 1000).unwrap();
    let timeline = SceneTimeline {
        scenes: vec![
            SceneTimelineSpan {
                start: FrameIndex(0),
                end: FrameIndex(3),
                start_time: Some(MediaTime::new(0, base)),
                end_time: Some(MediaTime::new(120, base)),
            },
            SceneTimelineSpan {
                start: FrameIndex(3),
                end: FrameIndex(5),
                start_time: Some(MediaTime::new(120, base)),
                end_time: None,
            },
        ],
    };
    let documents = timeline_scene_documents(&timeline);
    assert_eq!(
        documents,
        vec![
            SceneTimelineSceneDocument {
                scene_number: 1,
                start_frame: 0,
                end_frame: 3,
                start_time: Some(MediaTime::new(0, base)),
                end_time: Some(MediaTime::new(120, base)),
            },
            SceneTimelineSceneDocument {
                scene_number: 2,
                start_frame: 3,
                end_frame: 5,
                start_time: Some(MediaTime::new(120, base)),
                end_time: None,
            },
        ]
    );
}

#[test]
fn timeline_documents_of_empty_timeline_are_empty() {
    let timeline = SceneTimeline { scenes: Vec::new() };
    assert!(timeline_scene_documents(&timeline).is_empty());
}
