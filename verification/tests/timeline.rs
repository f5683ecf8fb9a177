use std::cell::Cell;
use std::rc::Rc;

use scenedetect::model::{Frame, FrameIndex, FrameRate, SceneDetectError, SceneList, SceneSpan};
use scenedetect::timeline::{
    fault_message, scene_timeline_from_source, FrameSource, SceneTimelineBuilder, TimelineFault,
};
use scenedetect::timing::{FrameTiming, FrameWithTiming, MediaTime, TimeBase};

struct TimingFrameSource {
    frame_rate: FrameRate,
    frames: std::vec::IntoIter<FrameWithTiming>,
    rich_reads: Rc<Cell<usize>>,
    plain_reads: Rc<Cell<usize>>,
}

impl FrameSource for TimingFrameSource {
    fn frame_rate(&self) -> FrameRate {
        self.frame_rate
    }

    fn next_frame(&mut self) -> Result<Option<Frame>, SceneDetectError> {
        self.plain_reads.set(self.plain_reads.get() + 1);
        Err(SceneDetectError::FrameSource(
            "Scene Timeline must use the timing-aware source path".to_owned(),
        ))
    }

    fn next_frame_with_timing(&mut self) -> Result<Option<FrameWithTiming>, SceneDetectError> {
        self.rich_reads.set(self.rich_reads.get() + 1);
        Ok(self.frames.next())
    }
}

/// A source that only knows plain frames.
struct PlainFrameSource {
    frames: std::vec::IntoIter<Frame>,
}

impl FrameSource for PlainFrameSource {
    fn frame_rate(&self) -> FrameRate {
        FrameRate(10.0f64.to_bits())
    }

    fn next_frame(&mut self) -> Result<Option<Frame>, SceneDetectError> {
        Ok(self.frames.next())
    }
}

fn rate() -> FrameRate {
    FrameRate(10.0f64.to_bits())
}

fn timed_frame(index: u64, pts: i64, duration: i64, time_base: TimeBase) -> FrameWithTiming {
    FrameWithTiming {
        frame: Frame::solid(index, 2, 2, [index as u8, index as u8, index as u8]),
        timing: FrameTiming {
            presentation_time: Some(MediaTime::new(pts, time_base)),
            duration: Some(MediaTime::new(duration, time_base)),
        },
    }
}

fn source_of(frames: Vec<FrameWithTiming>) -> TimingFrameSource {
    TimingFrameSource {
        frame_rate: rate(),
        frames: frames.into_iter(),
        rich_reads: Rc::new(Cell::new(0)),
        plain_reads: Rc::new(Cell::new(0)),
    }
}

fn one_scene_timeline_end(presentation: MediaTime, duration: MediaTime) -> Option<MediaTime> {
    let source = source_of(vec![FrameWithTiming {
        frame: Frame::solid(0, 2, 2, [0, 0, 0]),
        timing: FrameTiming {
            presentation_time: Some(presentation),
            duration: Some(duration),
        },
    }]);
    let scene_list = SceneList {
        frame_rate: rate(),
        scenes: vec![SceneSpan {
            start: FrameIndex(0),
            end: FrameIndex(1),
        }],
    };

    scene_timeline_from_source(&scene_list, source).unwrap().scenes[0].end_time
}

#[test]
fn timeline_preserves_exact_vfr_scene_endpoints_without_plain_frame_fallback() {
    let time_base = TimeBase::new(1, 1_000).unwrap();
    let rich_reads = Rc::new(Cell::new(0));
    let plain_reads = Rc::new(Cell::new(0));
    let source = TimingFrameSource {
        frame_rate: rate(),
        frames: vec![
            timed_frame(0, 0, 100, time_base),
            timed_frame(1, 100, 300, time_base),
            timed_frame(2, 400, 500, time_base),
            timed_frame(3, 900, 100, time_base),
        ]
        .into_iter(),
        rich_reads: Rc::clone(&rich_reads),
        plain_reads: Rc::clone(&plain_reads),
    };
    let scene_list = SceneList {
        frame_rate: rate(),
        scenes: vec![
            SceneSpan {
                start: FrameIndex(0),
                end: FrameIndex(2),
            },
            SceneSpan {
                start: FrameIndex(2),
                end: FrameIndex(4),
            },
        ],
    };

    let timeline = scene_timeline_from_source(&scene_list, source).unwrap();

    assert_eq!(timeline.scenes.len(), 2);
    assert_eq!(timeline.scenes[0].start, FrameIndex(0));
    assert_eq!(timeline.scenes[0].end, FrameIndex(2));
    assert_eq!(timeline.scenes[0].start_time, Some(MediaTime::new(0, time_base)));
    assert_eq!(timeline.scenes[0].end_time, Some(MediaTime::new(400, time_base)));
    assert_eq!(timeline.scenes[1].start_time, Some(MediaTime::new(400, time_base)));
    assert_eq!(timeline.scenes[1].end_time, Some(MediaTime::new(1_000, time_base)));
    assert_eq!(rich_reads.get(), 5, "four frames plus one EOF read");
    assert_eq!(plain_reads.get(), 0, "timeline generation must opt into rich timing");
}

#[test]
fn timeline_does_not_invent_final_media_time_when_duration_is_unknown() {
    let time_base = TimeBase::new(1, 1_000).unwrap();
    let source = source_of(vec![
        timed_frame(0, 0, 100, time_base),
        FrameWithTiming {
            frame: Frame::solid(1, 2, 2, [1, 1, 1]),
            timing: FrameTiming {
                presentation_time: Some(MediaTime::new(100, time_base)),
                duration: None,
            },
        },
    ]);
    let scene_list = SceneList {
        frame_rate: rate(),
        scenes: vec![SceneSpan {
            start: FrameIndex(0),
            end: FrameIndex(2),
        }],
    };

    let timeline = scene_timeline_from_source(&scene_list, source).unwrap();

    assert_eq!(timeline.scenes[0].start_time, Some(MediaTime::new(0, time_base)));
    assert_eq!(timeline.scenes[0].end_time, None);
}

#[test]
fn timeline_adds_exact_duration_across_compatible_rational_bases() {
    let presentation_base = TimeBase::new(1, 10).unwrap();
    let duration_base = TimeBase::new(1, 1_000).unwrap();

    assert_eq!(
        one_scene_timeline_end(
            MediaTime::new(9, presentation_base),
            MediaTime::new(100, duration_base),
        ),
        Some(MediaTime::new(10, presentation_base))
    );
}

#[test]
fn timeline_uses_a_common_exact_base_when_direct_conversion_is_fractional() {
    assert_eq!(
        one_scene_timeline_end(
            MediaTime::new(1, TimeBase::new(1, 6).unwrap()),
            MediaTime::new(1, TimeBase::new(1, 4).unwrap()),
        ),
        Some(MediaTime::new(5, TimeBase::new(1, 12).unwrap()))
    );
}

#[test]
fn timeline_uses_common_base_when_direct_tick_addition_overflows() {
    let time_base = TimeBase::new(1, 1_000).unwrap();

    assert_eq!(
        one_scene_timeline_end(MediaTime::new(i64::MAX, time_base), MediaTime::new(1, time_base)),
        Some(MediaTime::new(1_i64 << 60, TimeBase::new(1, 125).unwrap()))
    );
}

#[test]
fn timeline_of_an_empty_scene_list_reads_nothing() {
    let rich_reads = Rc::new(Cell::new(0));
    let source = TimingFrameSource {
        frame_rate: rate(),
        frames: Vec::new().into_iter(),
        rich_reads: Rc::clone(&rich_reads),
        plain_reads: Rc::new(Cell::new(0)),
    };
    let scene_list = SceneList { frame_rate: rate(), scenes: Vec::new() };
    let timeline = scene_timeline_from_source(&scene_list, source).unwrap();
    assert!(timeline.scenes.is_empty());
    assert_eq!(rich_reads.get(), 0);
}

#[test]
fn timeline_reports_a_source_that_skips_a_scene_start() {
    let time_base = TimeBase::new(1, 1_000).unwrap();
    let source = source_of(vec![timed_frame(0, 0, 100, time_base), timed_frame(3, 300, 100, time_base)]);
    let scene_list = SceneList {
        frame_rate: rate(),
        scenes: vec![
            SceneSpan { start: FrameIndex(0), end: FrameIndex(2) },
            SceneSpan { start: FrameIndex(2), end: FrameIndex(4) },
        ],
    };
    match scene_timeline_from_source(&scene_list, source) {
        Err(SceneDetectError::FrameSource(message)) => {
            assert_eq!(message, "timing source skipped Scene Timeline start frame 2")
        }
        other => panic!("unexpected result: {other:?}"),
    }
}

#[test]
fn timeline_reports_a_source_that_ends_early() {
    let time_base = TimeBase::new(1, 1_000).unwrap();
    let source = source_of(vec![timed_frame(0, 0, 100, time_base)]);
    let scene_list = SceneList {
        frame_rate: rate(),
        scenes: vec![SceneSpan { start: FrameIndex(0), end: FrameIndex(3) }],
    };
    match scene_timeline_from_source(&scene_list, source) {
        Err(SceneDetectError::FrameSource(message)) => assert_eq!(
            message,
            "timing source ended before all Scene Timeline frames were observed"
        ),
        other => panic!("unexpected result: {other:?}"),
    }
}

#[test]
fn plain_frame_sources_give_unknown_timing() {
    let mut source = PlainFrameSource { frames: vec![Frame::solid(0, 1, 1, [1, 2, 3])].into_iter() };
    let first = source.next_frame_with_timing().unwrap().unwrap();
    assert_eq!(first.frame.index, FrameIndex(0));
    assert_eq!(first.timing, FrameTiming { presentation_time: None, duration: None });
    assert!(source.next_frame_with_timing().unwrap().is_none());
}

#[test]
fn timeline_fault_messages_name_the_frame() {
    assert_eq!(
        fault_message(TimelineFault::SkippedEnd(17)),
        "timing source skipped Scene Timeline end frame 17"
    );
    assert_eq!(
        fault_message(TimelineFault::TooManyFrames),
        "timing source produced more frames than can be counted"
    );
}

#[test]
fn builder_fed_every_frame_keeps_exact_endpoints() {
    // Law: reading every frame in order keeps each scene's exact endpoints.
    let time_base = TimeBase::new(1, 90_000).unwrap();
    let scene_list = SceneList {
        frame_rate: rate(),
        scenes: vec![
            SceneSpan { start: FrameIndex(0), end: FrameIndex(1) },
            SceneSpan { start: FrameIndex(1), end: FrameIndex(3) },
        ],
    };
    let mut builder = SceneTimelineBuilder::new(&scene_list);
    let pts = [0_i64, 3_000, 9_000];
    for (index, ticks) in pts.iter().enumerate() {
        let timing = FrameTiming {
            presentation_time: Some(MediaTime::new(*ticks, time_base)),
            duration: Some(MediaTime::new(3_000, time_base)),
        };
        builder.observe(index as u64, timing).unwrap();
    }
    let timeline = builder.finish().unwrap();
    assert_eq!(timeline.scenes[0].start_time, Some(MediaTime::new(0, time_base)));
    assert_eq!(timeline.scenes[0].end_time, Some(MediaTime::new(3_000, time_base)));
    assert_eq!(timeline.scenes[1].start_time, Some(MediaTime::new(3_000, time_base)));
    assert_eq!(timeline.scenes[1].end_time, Some(MediaTime::new(12_000, time_base)));
}

/// A source that only knows plain frames and counts its reads.
struct CountingFrameSource {
    frame_rate: FrameRate,
    frames: std::vec::IntoIter<Frame>,
    reads: Rc<Cell<usize>>,
}

impl CountingFrameSource {
    fn new(frames: Vec<Frame>, reads: Rc<Cell<usize>>) -> Self {
        Self {
            frame_rate: FrameRate(10.0f64.to_bits()),
            frames: frames.into_iter(),
            reads,
        }
    }
}

impl FrameSource for CountingFrameSource {
    fn frame_rate(&self) -> FrameRate {
        self.frame_rate
    }

    fn next_frame(&mut self) -> Result<Option<Frame>, SceneDetectError> {
        self.reads.set(self.reads.get() + 1);
        Ok(self.frames.next())
    }
}

#[test]
fn legacy_source_default_timing_adapter_wraps_plain_frames() {
    let reads = Rc::new(Cell::new(0));
    let mut source = CountingFrameSource::new(
        vec![Frame::solid(0, 2, 2, [1, 2, 3])],
        Rc::clone(&reads),
    );

    let frame = source
        .next_frame_with_timing()
        .unwrap()
        .expect("legacy frame should be wrapped");
    assert_eq!(frame.frame.index, FrameIndex(0));
    assert_eq!(frame.timing, FrameTiming::default());
    assert_eq!(reads.get(), 1);
}

#[test]
fn timing_aware_source_exposes_richer_frame_path_without_legacy_fallback() {
    let time_base = TimeBase::new(1, 1_000).expect("valid time base");
    let rich_reads = Rc::new(Cell::new(0));
    let legacy_reads = Rc::new(Cell::new(0));
    let mut source = TimingFrameSource {
        frame_rate: FrameRate(10.0f64.to_bits()),
        frames: vec![
            FrameWithTiming {
                frame: Frame::solid(0, 2, 2, [0, 0, 0]),
                timing: FrameTiming {
                    presentation_time: Some(MediaTime::new(0, time_base)),
                    duration: Some(MediaTime::new(100, time_base)),
                },
            },
            FrameWithTiming {
                frame: Frame::solid(1, 2, 2, [255, 255, 255]),
                timing: FrameTiming {
                    presentation_time: Some(MediaTime::new(100, time_base)),
                    duration: Some(MediaTime::new(250, time_base)),
                },
            },
        ]
        .into_iter(),
        rich_reads: Rc::clone(&rich_reads),
        plain_reads: Rc::clone(&legacy_reads),
    };

    let first = source
        .next_frame_with_timing()
        .unwrap()
        .expect("first timing-aware frame");
    let second = source
        .next_frame_with_timing()
        .unwrap()
        .expect("second timing-aware frame");
    assert!(source.next_frame_with_timing().unwrap().is_none());

    assert_eq!(first.frame.index, FrameIndex(0));
    assert_eq!(second.frame.index, FrameIndex(1));
    let presentation = second.timing.presentation_time.unwrap();
    let seconds = presentation.ticks as f64 * presentation.time_base.numerator as f64
        / presentation.time_base.denominator as f64;
    assert!((seconds - 0.1).abs() < 1.0e-12);
    assert_eq!(rich_reads.get(), 3, "two frames plus one EOF read");
    assert_eq!(legacy_reads.get(), 0, "explicit rich reads must not use legacy next_frame");
}
