//! Exact media times for the first and last frame of every scene.
use vstd::prelude::*;
use vstd::string::StringExecFns;

use crate::model::{Frame, FrameIndex, FrameRate, SceneDetectError, SceneList, SceneSpan};
use crate::text::{concat, decimal, decimal_string};
use crate::timing::{exact_frame_end_time, exact_frame_end_time_spec, FrameTiming, FrameWithTiming, MediaTime};

verus! {

/// A producer of decoded video frames and their timing.
pub trait FrameSource {
    fn frame_rate(&self) -> FrameRate;

    /// The next frame, or `None` at the end of the video.
    fn next_frame(&mut self) -> Result<Option<Frame>, SceneDetectError>;

    /// The next frame with its timing. A source that knows no timing wraps its
    /// plain frames with unknown timing.
    fn next_frame_with_timing(&mut self) -> (result: Result<Option<FrameWithTiming>, SceneDetectError>)
        default_ensures
            result matches Ok(Some(frame)) ==> frame.timing.presentation_time is None
                && frame.timing.duration is None,
    {
        match self.next_frame() {
            Ok(Some(frame)) => Ok(Some(FrameWithTiming { frame, timing: FrameTiming::default() })),
            Ok(None) => Ok(None),
            Err(error) => Err(error),
        }
    }
}

/// A scene with the media times of its first frame and of its end.
#[derive(Debug, Clone, Copy, PartialEq, Eq, Structural)]
pub struct SceneTimelineSpan {
    pub start: FrameIndex,
    pub end: FrameIndex,
    pub start_time: Option<MediaTime>,
    pub end_time: Option<MediaTime>,
}

/// The scenes of a scene list with exact media times.
#[derive(Debug, Clone, PartialEq)]
pub struct SceneTimeline {
    pub scenes: Vec<SceneTimelineSpan>,
}

/// Why timing could not be attached to every scene.
#[derive(Debug, Clone, Copy, PartialEq, Eq, Structural)]
pub enum TimelineFault {
    /// The source jumped past the first frame of a scene.
    SkippedStart(u64),
    /// The source jumped past the end frame of a scene.
    SkippedEnd(u64),
    /// The source ended before every scene start and the final frame were seen.
    EndedEarly,
    /// The source produced more frames than a `u64` counts.
    TooManyFrames,
}

/// The message that reports a fault.
pub open spec fn fault_text(fault: TimelineFault) -> Seq<char> {
    match fault {
        TimelineFault::SkippedStart(n) => "timing source skipped Scene Timeline start frame "@
            + decimal(n as nat),
        TimelineFault::SkippedEnd(n) => "timing source skipped Scene Timeline end frame "@
            + decimal(n as nat),
        TimelineFault::EndedEarly => "timing source ended before all Scene Timeline frames were observed"@,
        TimelineFault::TooManyFrames => "timing source produced more frames than can be counted"@,
    }
}

pub fn fault_message(fault: TimelineFault) -> (message: String)
    ensures
        message@ == fault_text(fault),
{
    match fault {
        TimelineFault::SkippedStart(n) => {
            let digits = decimal_string(n);
            let digits_str = digits.as_str();
            let text = concat("timing source skipped Scene Timeline start frame ", digits_str);
            assert(digits_str@ == decimal(n as nat));
            text
        },
        TimelineFault::SkippedEnd(n) => {
            let digits = decimal_string(n);
            let digits_str = digits.as_str();
            let text = concat("timing source skipped Scene Timeline end frame ", digits_str);
            assert(digits_str@ == decimal(n as nat));
            text
        },
        TimelineFault::EndedEarly => <String as StringExecFns>::from_str(
            "timing source ended before all Scene Timeline frames were observed",
        ),
        TimelineFault::TooManyFrames => <String as StringExecFns>::from_str(
            "timing source produced more frames than can be counted",
        ),
    }
}

/// Where the timeline stands after some frames have been observed.
pub struct TimelineState {
    pub spans: Seq<SceneTimelineSpan>,
    /// Scenes before this one have their start time.
    pub start_cursor: int,
    /// Scenes before this one (other than at the final frame) have their end time.
    pub end_cursor: int,
    /// The timing of the frame just before `final_end`, once seen.
    pub final_frame_timing: Option<FrameTiming>,
}

/// The first scene from `from` on that does not start at `frame`.
pub open spec fn next_start_cursor(spans: Seq<SceneTimelineSpan>, from: int, frame: u64) -> int
    decreases spans.len() - from,
{
    if from < 0 || from >= spans.len() || spans[from].start.0 != frame {
        from
    } else {
        next_start_cursor(spans, from + 1, frame)
    }
}

/// The first scene from `from` on that does not end at `frame` before `final_end`.
pub open spec fn next_end_cursor(
    spans: Seq<SceneTimelineSpan>,
    from: int,
    frame: u64,
    final_end: u64,
) -> int
    decreases spans.len() - from,
{
    if from < 0 || from >= spans.len() || !(spans[from].end.0 < final_end && spans[from].end.0
        == frame) {
        from
    } else {
        next_end_cursor(spans, from + 1, frame, final_end)
    }
}

/// The timeline before any frame is seen.
pub open spec fn initial_timeline(scenes: Seq<SceneSpan>) -> TimelineState {
    TimelineState {
        spans: scenes.map_values(
            |s: SceneSpan|
                SceneTimelineSpan { start: s.start, end: s.end, start_time: None, end_time: None },
        ),
        start_cursor: 0,
        end_cursor: 0,
        final_frame_timing: None,
    }
}

/// Observing a frame: scenes that start at it take its presentation time as
/// their start time; scenes that end at it (before the final end) take it as
/// their end time; a frame past a scene's start or end that was never seen is a
/// fault; the frame just before the final end is remembered.
pub open spec fn timeline_step(
    state: TimelineState,
    final_end: u64,
    frame: u64,
    timing: FrameTiming,
) -> Result<TimelineState, TimelineFault> {
    let n = state.spans.len() as int;
    let sc = state.start_cursor;
    let ec = state.end_cursor;
    if sc < n && state.spans[sc].start.0 < frame {
        Err(TimelineFault::SkippedStart(state.spans[sc].start.0))
    } else {
        let sc2 = next_start_cursor(state.spans, sc, frame);
        let spans1 = Seq::new(
            n as nat,
            |k: int|
                if sc <= k < sc2 {
                    SceneTimelineSpan { start_time: timing.presentation_time, ..state.spans[k] }
                } else {
                    state.spans[k]
                },
        );
        if ec < n && spans1[ec].end.0 < final_end && spans1[ec].end.0 < frame {
            Err(TimelineFault::SkippedEnd(spans1[ec].end.0))
        } else {
            let ec2 = next_end_cursor(spans1, ec, frame, final_end);
            let spans2 = Seq::new(
                n as nat,
                |k: int|
                    if ec <= k < ec2 {
                        SceneTimelineSpan { end_time: timing.presentation_time, ..spans1[k] }
                    } else {
                        spans1[k]
                    },
            );
            Ok(
                TimelineState {
                    spans: spans2,
                    start_cursor: sc2,
                    end_cursor: ec2,
                    final_frame_timing: if frame + 1 == final_end {
                        Some(timing)
                    } else {
                        state.final_frame_timing
                    },
                },
            )
        }
    }
}

/// After the last frame: every scene must have its start, and the final frame
/// must have been seen; the last scene ends at the exact end of that frame.
pub open spec fn timeline_finish(state: TimelineState) -> Result<
    Seq<SceneTimelineSpan>,
    TimelineFault,
> {
    let n = state.spans.len();
    if state.start_cursor != n || state.final_frame_timing is None {
        Err(TimelineFault::EndedEarly)
    } else if n == 0 {
        Ok(state.spans)
    } else {
        Ok(
            state.spans.update(
                n - 1,
                SceneTimelineSpan {
                    end_time: exact_frame_end_time_spec(state.final_frame_timing->0),
                    ..state.spans[n - 1]
                },
            ),
        )
    }
}

/// The frame number at which the last scene ends; 0 without scenes.
pub open spec fn timeline_final_end(scenes: Seq<SceneSpan>) -> u64 {
    if scenes.len() == 0 {
        0
    } else {
        scenes.last().end.0
    }
}

/// A timeline under construction, fed one frame at a time.
pub struct SceneTimelineBuilder {
    spans: Vec<SceneTimelineSpan>,
    final_end: u64,
    start_cursor: usize,
    end_cursor: usize,
    final_frame_timing: Option<FrameTiming>,
}

impl SceneTimelineBuilder {
    pub closed spec fn state(&self) -> TimelineState {
        TimelineState {
            spans: self.spans@,
            start_cursor: self.start_cursor as int,
            end_cursor: self.end_cursor as int,
            final_frame_timing: self.final_frame_timing,
        }
    }

    /// The frame number at which the last scene ends.
    pub closed spec fn final_end(&self) -> u64 {
        self.final_end
    }

    pub closed spec fn wf(&self) -> bool {
        &&& self.start_cursor <= self.spans@.len()
        &&& self.end_cursor <= self.spans@.len()
    }

    /// A builder for the scenes of `scene_list`.
    pub fn new(scene_list: &SceneList) -> (builder: Self)
        ensures
            builder.wf(),
            builder.state() == initial_timeline(scene_list.scenes@),
            builder.final_end() == timeline_final_end(scene_list.scenes@),
    {
        let scenes = &scene_list.scenes;
        let mut spans: Vec<SceneTimelineSpan> = Vec::new();
        let mut i: usize = 0;
        while i < scenes.len()
            invariant
                i <= scenes@.len(),
                spans@ =~= initial_timeline(scenes@).spans.take(i as int),
            decreases scenes@.len() - i,
        {
            let scene = scenes[i];
            spans.push(
                SceneTimelineSpan {
                    start: scene.start,
                    end: scene.end,
                    start_time: None,
                    end_time: None,
                },
            );
            i = i + 1;
        }
        let final_end = if scenes.len() == 0 {
            0
        } else {
            scenes[scenes.len() - 1].end.0
        };
        let builder = SceneTimelineBuilder {
            spans,
            final_end,
            start_cursor: 0,
            end_cursor: 0,
            final_frame_timing: None,
        };
        assert(builder.state().spans =~= initial_timeline(scenes@).spans);
        builder
    }

    /// Observes the frame at `frame_index` with its timing.
    pub fn observe(&mut self, frame_index: u64, timing: FrameTiming) -> (result: Result<
        (),
        TimelineFault,
    >)
        requires
            old(self).wf(),
        ensures
            final(self).wf(),
            final(self).final_end() == old(self).final_end(),
            match timeline_step(old(self).state(), old(self).final_end(), frame_index, timing) {
                Ok(next) => result is Ok && final(self).state() == next,
                Err(fault) => result == Err::<(), TimelineFault>(fault),
            },
    {
        let ghost before = self.state();
        let ghost old_final_end = self.final_end;
        let ghost old_final_timing = self.final_frame_timing;
        let n = self.spans.len();
        if self.start_cursor < n && self.spans[self.start_cursor].start.0 < frame_index {
            return Err(TimelineFault::SkippedStart(self.spans[self.start_cursor].start.0));
        }
        let ghost sc = self.start_cursor as int;
        while self.start_cursor < n && self.spans[self.start_cursor].start.0 == frame_index
            invariant
                n == self.spans@.len(),
                n == before.spans.len(),
                sc == before.start_cursor,
                self.end_cursor == before.end_cursor,
                !(sc < n && before.spans[sc].start.0 < frame_index),
                sc <= self.start_cursor <= n,
                self.end_cursor <= n,
                self.final_end == old_final_end,
                self.final_frame_timing == old_final_timing,
                next_start_cursor(before.spans, sc, frame_index) == next_start_cursor(
                    before.spans,
                    self.start_cursor as int,
                    frame_index,
                ),
                forall|k: int|
                    0 <= k < n ==> #[trigger] self.spans@[k] == (if sc <= k
                        < self.start_cursor {
                        SceneTimelineSpan {
                            start_time: timing.presentation_time,
                            ..before.spans[k]
                        }
                    } else {
                        before.spans[k]
                    }),
            decreases n - self.start_cursor,
        {
            let span = self.spans[self.start_cursor];
            assert(before.spans[self.start_cursor as int].start.0 == frame_index);
            self.spans.set(
                self.start_cursor,
                SceneTimelineSpan { start_time: timing.presentation_time, ..span },
            );
            self.start_cursor = self.start_cursor + 1;
        }
        proof {
            if self.start_cursor < n {
                assert(self.spans@[self.start_cursor as int] == before.spans[self.start_cursor as int]);
            }
            assert(next_start_cursor(before.spans, self.start_cursor as int, frame_index)
                == self.start_cursor);
        }
        let ghost spans1 = self.spans@;
        assert(spans1 =~= Seq::new(
            n as nat,
            |k: int|
                if sc <= k < self.start_cursor {
                    SceneTimelineSpan { start_time: timing.presentation_time, ..before.spans[k] }
                } else {
                    before.spans[k]
                },
        ));
        if self.end_cursor < n && self.spans[self.end_cursor].end.0 < self.final_end
            && self.spans[self.end_cursor].end.0 < frame_index {
            return Err(TimelineFault::SkippedEnd(self.spans[self.end_cursor].end.0));
        }
        let ghost ec = self.end_cursor as int;
        while self.end_cursor < n && self.spans[self.end_cursor].end.0 < self.final_end
            && self.spans[self.end_cursor].end.0 == frame_index
            invariant
                n == self.spans@.len(),
                n == spans1.len(),
                n == before.spans.len(),
                ec == before.end_cursor,
                before.start_cursor <= before.spans.len(),
                !(before.start_cursor < n && before.spans[before.start_cursor].start.0 < frame_index),
                next_start_cursor(before.spans, before.start_cursor, frame_index) == self.start_cursor,
                spans1 == Seq::new(
                    n as nat,
                    |k: int|
                        if before.start_cursor <= k < self.start_cursor {
                            SceneTimelineSpan { start_time: timing.presentation_time, ..before.spans[k] }
                        } else {
                            before.spans[k]
                        },
                ),
                !(ec < n && spans1[ec].end.0 < self.final_end && spans1[ec].end.0 < frame_index),
                ec <= self.end_cursor <= n,
                self.start_cursor <= n,
                self.final_end == old_final_end,
                self.final_frame_timing == old_final_timing,
                next_end_cursor(spans1, ec, frame_index, self.final_end) == next_end_cursor(
                    spans1,
                    self.end_cursor as int,
                    frame_index,
                    self.final_end,
                ),
                forall|k: int|
                    0 <= k < n ==> #[trigger] self.spans@[k] == (if ec <= k < self.end_cursor {
                        SceneTimelineSpan { end_time: timing.presentation_time, ..spans1[k] }
                    } else {
                        spans1[k]
                    }),
            decreases n - self.end_cursor,
        {
            let span = self.spans[self.end_cursor];
            assert(spans1[self.end_cursor as int].end.0 == frame_index);
            self.spans.set(
                self.end_cursor,
                SceneTimelineSpan { end_time: timing.presentation_time, ..span },
            );
            self.end_cursor = self.end_cursor + 1;
        }
        proof {
            if self.end_cursor < n {
                assert(self.spans@[self.end_cursor as int] == spans1[self.end_cursor as int]);
            }
            assert(next_end_cursor(spans1, self.end_cursor as int, frame_index, self.final_end)
                == self.end_cursor);
        }
        if frame_index < u64::MAX && frame_index + 1 == self.final_end {
            self.final_frame_timing = Some(timing);
        }
        proof {
            let step = timeline_step(before, self.final_end, frame_index, timing);
            assert(step is Ok);
            let next = step->Ok_0;
            assert(next.start_cursor == self.start_cursor);
            assert(next.end_cursor == self.end_cursor);
            assert(next.final_frame_timing == self.final_frame_timing);
            assert(next.spans =~= self.spans@);
        }
        Ok(())
    }

    /// The finished timeline, or why it could not be finished.
    pub fn finish(self) -> (result: Result<SceneTimeline, TimelineFault>)
        requires
            self.wf(),
        ensures
            match timeline_finish(self.state()) {
                Ok(spans) => result matches Ok(t) && t.scenes@ == spans,
                Err(fault) => result matches Err(f) && f == fault,
            },
    {
        let n = self.spans.len();
        if self.start_cursor != n {
            return Err(TimelineFault::EndedEarly);
        }
        let timing = match self.final_frame_timing {
            Some(t) => t,
            None => return Err(TimelineFault::EndedEarly),
        };
        let mut spans = self.spans;
        if n > 0 {
            let last = spans[n - 1];
            spans.set(n - 1, SceneTimelineSpan { end_time: exact_frame_end_time(&timing), ..last });
        }
        Ok(SceneTimeline { scenes: spans })
    }
}

/// Whether `result` is what reading a scene timeline gives when the source
/// yields `frames` (frame number and timing) and then either ends (`failure`
/// is `None`) or fails with `failure`: the first fault among the frames comes
/// back as a frame-source error with the fault's text; a source that yields as
/// many frames as a `u64` counts is refused; a failing source's error comes back
/// as it is; otherwise the finished timeline, or the fault that finishing finds.
pub open spec fn timeline_read_gives(
    result: Result<SceneTimeline, SceneDetectError>,
    scenes: Seq<SceneSpan>,
    frames: Seq<(u64, FrameTiming)>,
    failure: Option<SceneDetectError>,
) -> bool {
    match timeline_run(initial_timeline(scenes), timeline_final_end(scenes), frames) {
        Err(fault) => result matches Err(SceneDetectError::FrameSource(message)) && message@
            == fault_text(fault),
        Ok(state) => if frames.len() >= u64::MAX {
            result matches Err(SceneDetectError::FrameSource(message)) && message@ == fault_text(
                TimelineFault::TooManyFrames,
            )
        } else {
            match failure {
                Some(error) => result == Err::<SceneTimeline, SceneDetectError>(error),
                None => match timeline_finish(state) {
                    Ok(spans) => result matches Ok(t) && t.scenes@ == spans,
                    Err(fault) => result matches Err(SceneDetectError::FrameSource(message))
                        && message@ == fault_text(fault),
                },
            }
        },
    }
}

/// Reads timed frames from `source` and attaches the exact media time of each
/// scene's first frame and of its end. A scene list without scenes reads nothing.
pub fn scene_timeline_from_source<S: FrameSource>(scene_list: &SceneList, source: S) -> (result:
    Result<SceneTimeline, SceneDetectError>)
    ensures
        scene_list.scenes@.len() == 0 ==> (result matches Ok(t) && t.scenes@.len() == 0),
        result matches Ok(t) ==> t.scenes@.len() == scene_list.scenes@.len() && forall|i: int|
            0 <= i < t.scenes@.len() ==> #[trigger] t.scenes@[i].start == scene_list.scenes@[i].start
                && t.scenes@[i].end == scene_list.scenes@[i].end,
        scene_list.scenes@.len() > 0 ==> exists|
            frames: Seq<(u64, FrameTiming)>,
            failure: Option<SceneDetectError>,
        | #[trigger] timeline_read_gives(result, scene_list.scenes@, frames, failure),
{
    let mut source = source;
    let mut builder = SceneTimelineBuilder::new(scene_list);
    if scene_list.scenes.len() == 0 {
        return Ok(SceneTimeline { scenes: Vec::new() });
    }
    let mut frames_read: u64 = 0;
    let ghost scenes = scene_list.scenes@;
    let ghost initial = initial_timeline(scenes);
    let ghost final_end = timeline_final_end(scenes);
    let ghost mut observed: Seq<(u64, FrameTiming)> = Seq::empty();
    loop
        invariant
            builder.wf(),
            scenes == scene_list.scenes@,
            builder.final_end() == final_end,
            final_end == timeline_final_end(scenes),
            initial == initial_timeline(scenes),
            observed.len() == frames_read,
            timeline_run(initial, final_end, observed) == Ok::<TimelineState, TimelineFault>(
                builder.state(),
            ),
            scene_list.scenes@.len() > 0,
            builder.state().spans.len() == scene_list.scenes@.len(),
            forall|i: int|
                0 <= i < scene_list.scenes@.len() ==> #[trigger] builder.state().spans[i].start
                    == scene_list.scenes@[i].start && builder.state().spans[i].end
                    == scene_list.scenes@[i].end,
        decreases u64::MAX - frames_read,
    {
        if frames_read == u64::MAX {
            let refused = Err(
                SceneDetectError::FrameSource(fault_message(TimelineFault::TooManyFrames)),
            );
            assert(timeline_read_gives(refused, scenes, observed, None));
            return refused;
        }
        let next = match source.next_frame_with_timing() {
            Ok(next) => next,
            Err(error) => {
                assert(timeline_read_gives(
                    Err::<SceneTimeline, SceneDetectError>(error),
                    scenes,
                    observed,
                    Some(error),
                ));
                return Err(error);
            },
        };
        let frame = match next {
            Some(frame) => frame,
            None => {
                let finished = match builder.finish() {
                    Ok(timeline) => Ok(timeline),
                    Err(fault) => Err(SceneDetectError::FrameSource(fault_message(fault))),
                };
                assert(timeline_read_gives(finished, scenes, observed, None));
                return finished;
            },
        };
        frames_read = frames_read + 1;
        let ghost seen = observed.push((frame.frame.index.0, frame.timing));
        proof {
            assert(seen.drop_last() =~= observed);
            assert(seen.last() == (frame.frame.index.0, frame.timing));
        }
        if let Err(fault) = builder.observe(frame.frame.index.0, frame.timing) {
            let faulted = Err(SceneDetectError::FrameSource(fault_message(fault)));
            assert(timeline_read_gives(faulted, scenes, seen, None));
            return faulted;
        }
        proof {
            observed = seen;
        }
    }
}

/// Observing frames one after another, stopping at the first fault.
pub open spec fn timeline_run(
    initial: TimelineState,
    final_end: u64,
    frames: Seq<(u64, FrameTiming)>,
) -> Result<TimelineState, TimelineFault>
    decreases frames.len(),
{
    if frames.len() == 0 {
        Ok(initial)
    } else {
        match timeline_run(initial, final_end, frames.drop_last()) {
            Ok(state) => timeline_step(state, final_end, frames.last().0, frames.last().1),
            Err(fault) => Err(fault),
        }
    }
}

/// The scenes cover frames `0..total` one after another, none of them empty.
pub open spec fn partitions(scenes: Seq<SceneSpan>, total: nat) -> bool {
    &&& scenes.len() >= 1
    &&& scenes[0].start.0 == 0
    &&& scenes.last().end.0 == total
    &&& forall|i: int| 0 <= i < scenes.len() - 1 ==> #[trigger] scenes[i].end == scenes[i + 1].start
    &&& forall|i: int| 0 <= i < scenes.len() ==> #[trigger] scenes[i].start.0 < scenes[i].end.0
}

proof fn lemma_partition_ordered(scenes: Seq<SceneSpan>, total: nat)
    requires
        partitions(scenes, total),
    ensures
        forall|i: int, j: int|
            0 <= i < j < scenes.len() ==> scenes[i].end.0 <= scenes[j].start.0,
        forall|i: int| 0 <= i < scenes.len() ==> scenes[i].end.0 <= total,
{
    assert forall|i: int, j: int| 0 <= i < j < scenes.len() implies scenes[i].end.0
        <= scenes[j].start.0 by {
        lemma_partition_gap(scenes, total, i, j);
    }
    assert forall|i: int| 0 <= i < scenes.len() implies scenes[i].end.0 <= total by {
        if i < scenes.len() - 1 {
            lemma_partition_gap(scenes, total, i, scenes.len() - 1);
        }
    }
}

proof fn lemma_partition_gap(scenes: Seq<SceneSpan>, total: nat, i: int, j: int)
    requires
        partitions(scenes, total),
        0 <= i < j < scenes.len(),
    ensures
        scenes[i].end.0 <= scenes[j].start.0,
    decreases j - i,
{
    if j > i + 1 {
        lemma_partition_gap(scenes, total, i, j - 1);
        assert(scenes[j - 1].start.0 < scenes[j - 1].end.0);
        assert(scenes[j - 1].end == scenes[j].start);
    } else {
        assert(scenes[i].end == scenes[i + 1].start);
    }
}

/// Where the timeline stands after frames `0..m` of a partitioned video.
pub open spec fn timeline_after(
    scenes: Seq<SceneSpan>,
    timings: Seq<FrameTiming>,
    m: int,
    state: TimelineState,
) -> bool {
    let n = scenes.len() as int;
    let total = timings.len() as int;
    &&& state.spans.len() == n
    &&& 0 <= state.start_cursor <= n
    &&& 0 <= state.end_cursor <= n
    &&& forall|i: int| 0 <= i < n ==> (i < state.start_cursor <==> #[trigger] scenes[i].start.0 < m)
    &&& forall|i: int|
        0 <= i < n ==> (i < state.end_cursor <==> (#[trigger] scenes[i].end.0 < m
            && scenes[i].end.0 < total))
    &&& forall|i: int|
        0 <= i < n ==> {
            &&& (#[trigger] state.spans[i]).start == scenes[i].start
            &&& state.spans[i].end == scenes[i].end
            &&& state.spans[i].start_time == if scenes[i].start.0 < m {
                timings[scenes[i].start.0 as int].presentation_time
            } else {
                None
            }
            &&& state.spans[i].end_time == if scenes[i].end.0 < m && scenes[i].end.0 < total {
                timings[scenes[i].end.0 as int].presentation_time
            } else {
                None
            }
        }
    &&& state.final_frame_timing == if m == total {
        Some(timings[total - 1])
    } else {
        None
    }
}

/// The frames `0..n` of a video with the given timings.
pub open spec fn consecutive_frames(timings: Seq<FrameTiming>) -> Seq<(u64, FrameTiming)> {
    Seq::new(timings.len(), |i: int| (i as u64, timings[i]))
}

/// In a partition, an earlier scene lies wholly before a later one.
pub proof fn lemma_scene_before(scenes: Seq<SceneSpan>, total: nat, i: int, j: int)
    requires
        partitions(scenes, total),
        0 <= i < j < scenes.len(),
    ensures
        scenes[i].start.0 < scenes[i].end.0 <= scenes[j].start.0 < scenes[j].end.0,
{
    lemma_partition_gap(scenes, total, i, j);
}

/// The start cursor after observing frame `m - 1`.
proof fn lemma_step_start_cursor(
    scenes: Seq<SceneSpan>,
    timings: Seq<FrameTiming>,
    m: int,
    state: TimelineState,
)
    requires
        partitions(scenes, timings.len()),
        1 <= m <= timings.len(),
        timings.len() <= u64::MAX,
        timeline_after(scenes, timings, m - 1, state),
    ensures
        !(state.start_cursor < scenes.len() && state.spans[state.start_cursor].start.0 < m - 1),
        next_start_cursor(state.spans, state.start_cursor, (m - 1) as u64) == if state.start_cursor
            < scenes.len() && scenes[state.start_cursor].start.0 == m - 1 {
            state.start_cursor + 1
        } else {
            state.start_cursor
        },
{
    let n = scenes.len() as int;
    let sc = state.start_cursor;
    let f = (m - 1) as u64;
    if sc < n {
        assert(state.spans[sc].start == scenes[sc].start);
        assert(!(scenes[sc].start.0 < m - 1));
        if scenes[sc].start.0 == f {
            if sc + 1 < n {
                lemma_scene_before(scenes, timings.len(), sc, sc + 1);
                assert(state.spans[sc + 1].start == scenes[sc + 1].start);
            }
            assert(next_start_cursor(state.spans, sc + 1, f) == sc + 1);
        }
    }
}

/// The end cursor after observing frame `m - 1`.
proof fn lemma_step_end_cursor(
    scenes: Seq<SceneSpan>,
    timings: Seq<FrameTiming>,
    m: int,
    state: TimelineState,
    spans1: Seq<SceneTimelineSpan>,
)
    requires
        partitions(scenes, timings.len()),
        1 <= m <= timings.len(),
        timings.len() <= u64::MAX,
        timeline_after(scenes, timings, m - 1, state),
        spans1.len() == scenes.len(),
        forall|k: int|
            0 <= k < scenes.len() ==> #[trigger] spans1[k].end == scenes[k].end,
    ensures
        ({
            let ec = state.end_cursor;
            let fe = timings.len() as u64;
            &&& !(ec < scenes.len() && spans1[ec].end.0 < fe && spans1[ec].end.0 < m - 1)
            &&& next_end_cursor(spans1, ec, (m - 1) as u64, fe) == if ec < scenes.len()
                && scenes[ec].end.0 < fe && scenes[ec].end.0 == m - 1 {
                ec + 1
            } else {
                ec
            }
        }),
{
    let n = scenes.len() as int;
    let ec = state.end_cursor;
    let fe = timings.len() as u64;
    let f = (m - 1) as u64;
    if ec < n {
        assert(spans1[ec].end == scenes[ec].end);
        assert(!(scenes[ec].end.0 < m - 1 && scenes[ec].end.0 < timings.len()));
        if scenes[ec].end.0 < fe && scenes[ec].end.0 == f {
            if ec + 1 < n {
                lemma_scene_before(scenes, timings.len(), ec, ec + 1);
                assert(spans1[ec + 1].end == scenes[ec + 1].end);
            }
            assert(next_end_cursor(spans1, ec + 1, f, fe) == ec + 1);
        }
    }
}

/// Observing frame `m - 1` moves the timeline from "after `m - 1` frames" to
/// "after `m` frames".
#[verifier::rlimit(60)]
proof fn lemma_timeline_step(
    scenes: Seq<SceneSpan>,
    timings: Seq<FrameTiming>,
    m: int,
    state: TimelineState,
)
    requires
        partitions(scenes, timings.len()),
        timings.len() <= u64::MAX,
        1 <= m <= timings.len(),
        timeline_after(scenes, timings, m - 1, state),
    ensures
        ({
            let step = timeline_step(state, timings.len() as u64, (m - 1) as u64, timings[m - 1]);
            step is Ok && timeline_after(scenes, timings, m, step->Ok_0)
        }),
{
    let n = scenes.len() as int;
    let total = timings.len() as int;
    let fe = timings.len() as u64;
    let f = (m - 1) as u64;
    let timing = timings[m - 1];
    let sc = state.start_cursor;
    let ec = state.end_cursor;
    lemma_step_start_cursor(scenes, timings, m, state);
    let sc2 = next_start_cursor(state.spans, sc, f);
    let spans1 = Seq::new(
        n as nat,
        |k: int|
            if sc <= k < sc2 {
                SceneTimelineSpan { start_time: timing.presentation_time, ..state.spans[k] }
            } else {
                state.spans[k]
            },
    );
    assert forall|k: int| 0 <= k < n implies #[trigger] spans1[k].end == scenes[k].end by {
        assert(state.spans[k].end == scenes[k].end);
    }
    lemma_step_end_cursor(scenes, timings, m, state, spans1);
    let ec2 = next_end_cursor(spans1, ec, f, fe);
    let step = timeline_step(state, fe, f, timing);
    assert(step is Ok);
    let next = step->Ok_0;
    assert(next.start_cursor == sc2);
    assert(next.end_cursor == ec2);
    assert forall|i: int| 0 <= i < n implies (i < next.start_cursor <==> #[trigger] scenes[i].start.0
        < m) by {
        if i > sc && sc < n {
            lemma_scene_before(scenes, timings.len(), sc, i);
        }
    }
    assert forall|i: int|
        0 <= i < n implies (i < next.end_cursor <==> (#[trigger] scenes[i].end.0 < m
            && scenes[i].end.0 < total)) by {
        if i > ec && ec < n {
            lemma_scene_before(scenes, timings.len(), ec, i);
        }
    }
    assert forall|i: int| 0 <= i < n implies {
        &&& (#[trigger] next.spans[i]).start == scenes[i].start
        &&& next.spans[i].end == scenes[i].end
        &&& next.spans[i].start_time == if scenes[i].start.0 < m {
            timings[scenes[i].start.0 as int].presentation_time
        } else {
            None
        }
        &&& next.spans[i].end_time == if scenes[i].end.0 < m && scenes[i].end.0 < total {
            timings[scenes[i].end.0 as int].presentation_time
        } else {
            None
        }
    } by {
        if i > sc && sc < n {
            lemma_scene_before(scenes, timings.len(), sc, i);
        }
        if i > ec && ec < n {
            lemma_scene_before(scenes, timings.len(), ec, i);
        }
    }
}

proof fn lemma_timeline_prefix(scenes: Seq<SceneSpan>, timings: Seq<FrameTiming>, m: int)
    requires
        partitions(scenes, timings.len()),
        timings.len() <= u64::MAX,
        0 <= m <= timings.len(),
    ensures
        ({
            let run = timeline_run(
                initial_timeline(scenes),
                timings.len() as u64,
                consecutive_frames(timings).take(m),
            );
            run is Ok && timeline_after(scenes, timings, m, run->Ok_0)
        }),
    decreases m,
{
    let frames = consecutive_frames(timings);
    if m == 0 {
        assert(frames.take(0).len() == 0);
        lemma_partition_ordered(scenes, timings.len());
        assert(timings.len() > 0);
        let init = initial_timeline(scenes);
        assert forall|i: int| 0 <= i < scenes.len() implies #[trigger] init.spans[i].start
            == scenes[i].start && init.spans[i].end == scenes[i].end
            && init.spans[i].start_time is None && init.spans[i].end_time is None by {}
    } else {
        lemma_timeline_prefix(scenes, timings, m - 1);
        assert(frames.take(m).drop_last() =~= frames.take(m - 1));
        assert(frames.take(m).last() == ((m - 1) as u64, timings[m - 1]));
        let state = timeline_run(
            initial_timeline(scenes),
            timings.len() as u64,
            frames.take(m - 1),
        )->Ok_0;
        lemma_timeline_step(scenes, timings, m, state);
    }
}

/// Law: reading every frame of a video in order gives each scene the presentation
/// time of its first frame as its start time, the presentation time of the next
/// scene's first frame as its end time, and the exact end of the final frame as
/// the end time of the last scene.
pub proof fn law_timeline_keeps_exact_endpoints(scenes: Seq<SceneSpan>, timings: Seq<FrameTiming>)
    requires
        partitions(scenes, timings.len()),
        timings.len() <= u64::MAX,
    ensures
        ({
            let run = timeline_run(
                initial_timeline(scenes),
                timings.len() as u64,
                consecutive_frames(timings),
            );
            let n = scenes.len() as int;
            &&& run is Ok
            &&& timeline_finish(run->Ok_0) is Ok
            &&& forall|i: int|
                0 <= i < n ==> #[trigger] timeline_finish(run->Ok_0)->Ok_0[i].start_time
                    == timings[scenes[i].start.0 as int].presentation_time
            &&& forall|i: int|
                0 <= i < n - 1 ==> #[trigger] timeline_finish(run->Ok_0)->Ok_0[i].end_time
                    == timings[scenes[i].end.0 as int].presentation_time
            &&& timeline_finish(run->Ok_0)->Ok_0[n - 1].end_time == exact_frame_end_time_spec(
                timings[timings.len() - 1],
            )
        }),
{
    let total = timings.len() as int;
    lemma_timeline_prefix(scenes, timings, total);
    lemma_partition_ordered(scenes, timings.len());
    let frames = consecutive_frames(timings);
    assert(frames.take(total) =~= frames);
    let state = timeline_run(initial_timeline(scenes), timings.len() as u64, frames)->Ok_0;
    let n = scenes.len() as int;
    assert(state.start_cursor == n) by {
        assert(scenes[n - 1].start.0 < total);
    }
    assert forall|i: int| 0 <= i < n - 1 implies scenes[i].end.0 < total by {
        assert(scenes[i].end == scenes[i + 1].start);
        assert(scenes[i + 1].start.0 < scenes[i + 1].end.0);
    }
}

/// Law: when the source yields every frame of a video in order, each with its
/// timing, and then ends, the timeline read from it keeps every scene's frames,
/// starts each scene at the presentation time of its first frame, ends each
/// scene but the last at the presentation time of the next scene's first frame,
/// and ends the last scene at the exact end of the final frame.
pub proof fn law_timeline_read_of_every_frame(
    result: Result<SceneTimeline, SceneDetectError>,
    scenes: Seq<SceneSpan>,
    timings: Seq<FrameTiming>,
)
    requires
        partitions(scenes, timings.len()),
        timings.len() < u64::MAX,
        timeline_read_gives(result, scenes, consecutive_frames(timings), None),
    ensures
        result is Ok,
        ({
            let t = result->Ok_0.scenes@;
            let n = scenes.len() as int;
            &&& t.len() == n
            &&& forall|i: int|
                0 <= i < n ==> #[trigger] t[i].start == scenes[i].start && t[i].end == scenes[i].end
                    && t[i].start_time == timings[scenes[i].start.0 as int].presentation_time
            &&& forall|i: int|
                0 <= i < n - 1 ==> #[trigger] t[i].end_time == timings[scenes[i].end.0 as int].presentation_time
            &&& t[n - 1].end_time == exact_frame_end_time_spec(timings[timings.len() - 1])
        }),
{
    let total = timings.len() as int;
    law_timeline_keeps_exact_endpoints(scenes, timings);
    lemma_timeline_prefix(scenes, timings, total);
    let frames = consecutive_frames(timings);
    assert(frames.take(total) =~= frames);
    assert(timeline_final_end(scenes) == timings.len() as u64);
    let state = timeline_run(initial_timeline(scenes), timings.len() as u64, frames)->Ok_0;
    let spans = timeline_finish(state)->Ok_0;
    let n = scenes.len() as int;
    assert forall|i: int| 0 <= i < n implies #[trigger] spans[i].start == scenes[i].start
        && spans[i].end == scenes[i].end by {
        assert(state.spans[i].start == scenes[i].start);
        assert(state.spans[i].end == scenes[i].end);
    }
}

/// Law: when the source yields the first `m` frames of a video in order and
/// then ends before the final frame, reading the timeline fails with a
/// frame-source error saying that the source ended early.
pub proof fn law_timeline_read_that_ends_early(
    result: Result<SceneTimeline, SceneDetectError>,
    scenes: Seq<SceneSpan>,
    timings: Seq<FrameTiming>,
    m: int,
)
    requires
        partitions(scenes, timings.len()),
        timings.len() <= u64::MAX,
        0 <= m < timings.len(),
        timeline_read_gives(result, scenes, consecutive_frames(timings).take(m), None),
    ensures
        result matches Err(SceneDetectError::FrameSource(message)) && message@ == fault_text(
            TimelineFault::EndedEarly,
        ),
{
    lemma_timeline_prefix(scenes, timings, m);
    assert(timeline_final_end(scenes) == timings.len() as u64);
}

/// Law: when the source yields the first `m` frames of a video in order and
/// then a frame past the first frame of scene `i`, the first scene not yet
/// started, reading the timeline fails with a frame-source error naming that
/// scene's first frame.
pub proof fn law_timeline_read_that_skips_a_start(
    result: Result<SceneTimeline, SceneDetectError>,
    scenes: Seq<SceneSpan>,
    timings: Seq<FrameTiming>,
    m: int,
    i: int,
    skipped_to: u64,
    timing: FrameTiming,
    failure: Option<SceneDetectError>,
)
    requires
        partitions(scenes, timings.len()),
        timings.len() <= u64::MAX,
        0 <= m <= timings.len(),
        0 <= i < scenes.len(),
        m <= scenes[i].start.0 < skipped_to,
        i == 0 || scenes[i - 1].start.0 < m,
        timeline_read_gives(
            result,
            scenes,
            consecutive_frames(timings).take(m).push((skipped_to, timing)),
            failure,
        ),
    ensures
        result matches Err(SceneDetectError::FrameSource(message)) && message@ == fault_text(
            TimelineFault::SkippedStart(scenes[i].start.0),
        ),
{
    lemma_timeline_prefix(scenes, timings, m);
    assert(timeline_final_end(scenes) == timings.len() as u64);
    let prefix = consecutive_frames(timings).take(m);
    let frames = prefix.push((skipped_to, timing));
    assert(frames.drop_last() =~= prefix);
    assert(frames.last() == (skipped_to, timing));
    let state = timeline_run(initial_timeline(scenes), timings.len() as u64, prefix)->Ok_0;
    if i > 0 {
        assert(scenes[i - 1].start.0 < m);
    }
    assert(state.start_cursor == i);
    assert(state.spans[i].start == scenes[i].start);
}

} // verus!
