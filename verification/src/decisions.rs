//! The decisions a detector makes once a frame's score has been compared with
//! its thresholds: which frames become scene boundaries under the minimum scene
//! length, how a fade is tracked, and when an adaptive window is complete.
use vstd::prelude::*;

use crate::model::{BoundaryCandidateStatus, DetectionStatsDecision, FrameIndex, SceneBoundary};
use crate::scene_list::boundary_frames;

verus! {

/// At least `min_scene_len` frames lie between the last cut and `frame`
/// (counted as 0 when `frame` comes before the last cut).
pub open spec fn passes_min_scene_len(frame: u64, last_cut: u64, min_scene_len: u64) -> bool {
    (if frame >= last_cut {
        frame - last_cut
    } else {
        0
    }) >= min_scene_len
}

fn min_scene_len_passed(frame: u64, last_cut: u64, min_scene_len: u64) -> (passed: bool)
    ensures
        passed == passes_min_scene_len(frame, last_cut, min_scene_len),
{
    frame.saturating_sub(last_cut) >= min_scene_len
}

/// What a gate remembers: the frame of the last cut (or candidate) and the
/// frames it accepted, in order.
pub struct GateState {
    pub last: u64,
    pub accepted: Seq<u64>,
}

pub open spec fn initial_gate() -> GateState {
    GateState { last: 0, accepted: Seq::empty() }
}

/// A candidate gate (the content detector): every frame that reaches the
/// threshold becomes the new reference point, and it is accepted when it lies at
/// least the minimum scene length after the previous candidate.
pub open spec fn candidate_step(state: GateState, frame: u64, at_threshold: bool, min_scene_len: u64) -> GateState {
    if !at_threshold {
        state
    } else if passes_min_scene_len(frame, state.last, min_scene_len) {
        GateState { last: frame, accepted: state.accepted.push(frame) }
    } else {
        GateState { last: frame, accepted: state.accepted }
    }
}

/// A cut gate (the adaptive, histogram and hash detectors): a frame that is a
/// cut is accepted when it lies at least the minimum scene length after the
/// previous accepted cut, and only then becomes the new reference point.
pub open spec fn cut_step(state: GateState, frame: u64, is_cut: bool, min_scene_len: u64) -> GateState {
    if is_cut && passes_min_scene_len(frame, state.last, min_scene_len) {
        GateState { last: frame, accepted: state.accepted.push(frame) }
    } else {
        state
    }
}

/// The candidate gate after a run of (frame, reaches threshold) observations.
pub open spec fn candidate_run(events: Seq<(u64, bool)>, min_scene_len: u64) -> GateState
    decreases events.len(),
{
    if events.len() == 0 {
        initial_gate()
    } else {
        candidate_step(
            candidate_run(events.drop_last(), min_scene_len),
            events.last().0,
            events.last().1,
            min_scene_len,
        )
    }
}

/// The cut gate after a run of (frame, is a cut) observations.
pub open spec fn cut_run(events: Seq<(u64, bool)>, min_scene_len: u64) -> GateState
    decreases events.len(),
{
    if events.len() == 0 {
        initial_gate()
    } else {
        cut_step(
            cut_run(events.drop_last(), min_scene_len),
            events.last().0,
            events.last().1,
            min_scene_len,
        )
    }
}

/// Accepted frames lie at least `min_scene_len` after frame 0 and after one another.
pub open spec fn spaced(accepted: Seq<u64>, min_scene_len: u64) -> bool {
    &&& accepted.len() > 0 ==> accepted[0] >= min_scene_len
    &&& forall|i: int|
        0 <= i < accepted.len() - 1 ==> #[trigger] accepted[i + 1] >= accepted[i] + min_scene_len
}

/// The frames of the observations come in increasing order.
pub open spec fn increasing_frames(events: Seq<(u64, bool)>) -> bool {
    forall|i: int, j: int| 0 <= i < j < events.len() ==> events[i].0 < events[j].0
}

proof fn lemma_candidate_run_spaced(events: Seq<(u64, bool)>, min_scene_len: u64)
    requires
        min_scene_len > 0,
        increasing_frames(events),
    ensures
        ({
            let state = candidate_run(events, min_scene_len);
            &&& spaced(state.accepted, min_scene_len)
            &&& state.accepted.len() > 0 ==> state.last >= state.accepted.last()
            &&& events.len() == 0 ==> state.last == 0
            &&& events.len() > 0 ==> state.last <= events.last().0
        }),
    decreases events.len(),
{
    if events.len() > 0 {
        let rest = events.drop_last();
        lemma_candidate_run_spaced(rest, min_scene_len);
        if rest.len() > 0 {
            assert(rest.last().0 < events.last().0);
        }
    }
}

proof fn lemma_cut_run_spaced(events: Seq<(u64, bool)>, min_scene_len: u64)
    requires
        min_scene_len > 0,
    ensures
        ({
            let state = cut_run(events, min_scene_len);
            &&& spaced(state.accepted, min_scene_len)
            &&& state.accepted.len() > 0 ==> state.last == state.accepted.last()
            &&& state.accepted.len() == 0 ==> state.last == 0
        }),
    decreases events.len(),
{
    if events.len() > 0 {
        lemma_cut_run_spaced(events.drop_last(), min_scene_len);
    }
}

/// Law: with a positive minimum scene length, the boundaries a cut gate accepts
/// are each at least that many frames after frame 0 and after the previous
/// boundary, whatever order the frames come in.
pub proof fn law_cut_gate_keeps_scenes_long(events: Seq<(u64, bool)>, min_scene_len: u64)
    requires
        min_scene_len > 0,
    ensures
        spaced(cut_run(events, min_scene_len).accepted, min_scene_len),
{
    lemma_cut_run_spaced(events, min_scene_len);
}

/// Law: with a positive minimum scene length and frames in increasing order, the
/// boundaries a candidate gate accepts are each at least that many frames after
/// frame 0 and after the previous boundary.
pub proof fn law_candidate_gate_keeps_scenes_long(events: Seq<(u64, bool)>, min_scene_len: u64)
    requires
        min_scene_len > 0,
        increasing_frames(events),
    ensures
        spaced(candidate_run(events, min_scene_len).accepted, min_scene_len),
{
    lemma_candidate_run_spaced(events, min_scene_len);
}

/// The review status of a candidate at a gate: below the detector threshold it
/// is a near miss; otherwise the minimum scene length decides.
pub open spec fn candidate_status(state: GateState, frame: u64, at_threshold: bool, min_scene_len: u64) -> BoundaryCandidateStatus {
    if !at_threshold {
        BoundaryCandidateStatus::NearMiss
    } else if passes_min_scene_len(frame, state.last, min_scene_len) {
        BoundaryCandidateStatus::Accepted
    } else {
        BoundaryCandidateStatus::SuppressedMinSceneLen
    }
}

/// The boundaries of a content detector, decided frame by frame.
pub struct CandidateGate {
    min_scene_len: u64,
    last_candidate: u64,
    boundaries: Vec<SceneBoundary>,
    frames_seen: u64,
}

impl CandidateGate {
    pub closed spec fn state(&self) -> GateState {
        GateState { last: self.last_candidate, accepted: boundary_frames(self.boundaries@) }
    }

    pub closed spec fn min_len(&self) -> u64 {
        self.min_scene_len
    }

    pub closed spec fn seen(&self) -> u64 {
        self.frames_seen
    }

    pub fn new(min_scene_len: u64) -> (gate: Self)
        ensures
            gate.state() == initial_gate(),
            gate.min_len() == min_scene_len,
            gate.seen() == 0,
    {
        let gate = CandidateGate {
            min_scene_len,
            last_candidate: 0,
            boundaries: Vec::new(),
            frames_seen: 0,
        };
        assert(gate.state().accepted =~= Seq::<u64>::empty());
        gate
    }

    /// Reviews the frame at `frame`. Frames below the review threshold
    /// (`in_review` false) change nothing and get no status.
    pub fn review(&mut self, frame: FrameIndex, in_review: bool, at_threshold: bool) -> (status:
        Option<BoundaryCandidateStatus>)
        requires
            old(self).seen() < u64::MAX,
        ensures
            final(self).seen() == old(self).seen() + 1,
            final(self).min_len() == old(self).min_len(),
            final(self).state() == if in_review {
                candidate_step(old(self).state(), frame.0, at_threshold, old(self).min_len())
            } else {
                old(self).state()
            },
            status == if in_review {
                Some(candidate_status(old(self).state(), frame.0, at_threshold, old(self).min_len()))
            } else {
                None::<BoundaryCandidateStatus>
            },
    {
        self.frames_seen = self.frames_seen + 1;
        if !in_review {
            return None;
        }
        if !at_threshold {
            return Some(BoundaryCandidateStatus::NearMiss);
        }
        let ghost before = self.boundaries@;
        let status = if min_scene_len_passed(frame.0, self.last_candidate, self.min_scene_len) {
            self.boundaries.push(SceneBoundary { frame });
            assert(boundary_frames(self.boundaries@) =~= boundary_frames(before).push(frame.0));
            BoundaryCandidateStatus::Accepted
        } else {
            BoundaryCandidateStatus::SuppressedMinSceneLen
        };
        self.last_candidate = frame.0;
        Some(status)
    }

    /// Observes a frame during plain detection; tells whether it became a boundary.
    pub fn observe(&mut self, frame: FrameIndex, at_threshold: bool) -> (accepted: bool)
        requires
            old(self).seen() < u64::MAX,
        ensures
            final(self).seen() == old(self).seen() + 1,
            final(self).min_len() == old(self).min_len(),
            final(self).state() == candidate_step(old(self).state(), frame.0, at_threshold, old(self).min_len()),
            accepted == (at_threshold && passes_min_scene_len(frame.0, old(self).state().last, old(self).min_len())),
    {
        let status = self.review(frame, at_threshold, at_threshold);
        match status {
            Some(BoundaryCandidateStatus::Accepted) => true,
            _ => false,
        }
    }

    /// The Detection Stats decision for a frame: the first frame, which has no
    /// previous frame to compare with, is not evaluated.
    pub fn decide(&mut self, frame: FrameIndex, evaluated: bool, at_threshold: bool) -> (decision:
        DetectionStatsDecision)
        requires
            old(self).seen() < u64::MAX,
        ensures
            final(self).seen() == old(self).seen() + 1,
            final(self).min_len() == old(self).min_len(),
            final(self).state() == if evaluated {
                candidate_step(old(self).state(), frame.0, at_threshold, old(self).min_len())
            } else {
                old(self).state()
            },
            decision == if !evaluated {
                DetectionStatsDecision::NotEvaluated
            } else if !at_threshold {
                DetectionStatsDecision::BelowThreshold
            } else if passes_min_scene_len(frame.0, old(self).state().last, old(self).min_len()) {
                DetectionStatsDecision::Accepted
            } else {
                DetectionStatsDecision::SuppressedMinSceneLen
            },
    {
        let status = self.review(frame, evaluated, at_threshold);
        match status {
            None => DetectionStatsDecision::NotEvaluated,
            Some(BoundaryCandidateStatus::NearMiss) => DetectionStatsDecision::BelowThreshold,
            Some(BoundaryCandidateStatus::Accepted) => DetectionStatsDecision::Accepted,
            Some(BoundaryCandidateStatus::SuppressedMinSceneLen) => DetectionStatsDecision::SuppressedMinSceneLen,
        }
    }

    /// The accepted boundaries and the number of frames seen.
    pub fn finish(self) -> (result: (Vec<SceneBoundary>, u64))
        ensures
            boundary_frames(result.0@) == self.state().accepted,
            result.1 == self.seen(),
    {
        (self.boundaries, self.frames_seen)
    }
}

/// The boundaries of a histogram or hash detector, decided frame by frame.
pub struct CutGate {
    min_scene_len: u64,
    last_cut: u64,
    boundaries: Vec<SceneBoundary>,
    frames_seen: u64,
}

impl CutGate {
    pub closed spec fn state(&self) -> GateState {
        GateState { last: self.last_cut, accepted: boundary_frames(self.boundaries@) }
    }

    pub closed spec fn min_len(&self) -> u64 {
        self.min_scene_len
    }

    pub closed spec fn seen(&self) -> u64 {
        self.frames_seen
    }

    pub fn new(min_scene_len: u64) -> (gate: Self)
        ensures
            gate.state() == initial_gate(),
            gate.min_len() == min_scene_len,
            gate.seen() == 0,
    {
        let gate = CutGate { min_scene_len, last_cut: 0, boundaries: Vec::new(), frames_seen: 0 };
        assert(gate.state().accepted =~= Seq::<u64>::empty());
        gate
    }

    /// Observes a frame; `is_cut` tells whether its score marks a cut. Tells
    /// whether the frame became a boundary.
    pub fn observe(&mut self, frame: FrameIndex, is_cut: bool) -> (accepted: bool)
        requires
            old(self).seen() < u64::MAX,
        ensures
            final(self).seen() == old(self).seen() + 1,
            final(self).min_len() == old(self).min_len(),
            final(self).state() == cut_step(old(self).state(), frame.0, is_cut, old(self).min_len()),
            accepted == (is_cut && passes_min_scene_len(frame.0, old(self).state().last, old(self).min_len())),
    {
        self.frames_seen = self.frames_seen + 1;
        if is_cut && min_scene_len_passed(frame.0, self.last_cut, self.min_scene_len) {
            let ghost before = self.boundaries@;
            self.boundaries.push(SceneBoundary { frame });
            assert(boundary_frames(self.boundaries@) =~= boundary_frames(before).push(frame.0));
            self.last_cut = frame.0;
            true
        } else {
            false
        }
    }

    /// The accepted boundaries and the number of frames seen.
    pub fn finish(self) -> (result: (Vec<SceneBoundary>, u64))
        ensures
            boundary_frames(result.0@) == self.state().accepted,
            result.1 == self.seen(),
    {
        (self.boundaries, self.frames_seen)
    }
}

/// Whether the picture last went dark (a fade out) or came back (a fade in).
#[derive(Debug, Clone, Copy, PartialEq, Eq, Structural)]
pub enum FadeType {
    In,
    Out,
}

/// A fade that ended: the frame where the picture went dark and the number of
/// frames until it came back. The new boundary lies inside this span.
#[derive(Debug, Clone, Copy, PartialEq, Eq, Structural)]
pub struct FadeReturn {
    pub fade_out_frame: u64,
    pub duration: u64,
}

/// What a threshold detector remembers between frames.
pub struct FadeState {
    pub last_scene_cut: u64,
    pub last_fade_frame: Option<u64>,
    pub last_fade_type: Option<FadeType>,
    pub frames_seen: u64,
}

/// Observing the frame at `frame`, which is `dark` when its mean luma is below
/// the threshold. The first frame sets the reference cut and the first fade
/// state; a dark frame after light ones starts a fade out; a light frame after
/// dark ones ends it, and makes a cut when the minimum scene length has passed.
pub open spec fn fade_step(state: FadeState, frame: u64, dark: bool, min_scene_len: u64) -> (
    FadeState,
    Option<FadeReturn>,
) {
    let last_scene_cut = if state.frames_seen == 0 {
        frame
    } else {
        state.last_scene_cut
    };
    let seen = (state.frames_seen + 1) as u64;
    match state.last_fade_type {
        None => (
            FadeState {
                last_scene_cut,
                last_fade_frame: Some(frame),
                last_fade_type: Some(if dark { FadeType::Out } else { FadeType::In }),
                frames_seen: seen,
            },
            None,
        ),
        Some(FadeType::In) => if dark {
            (
                FadeState {
                    last_scene_cut,
                    last_fade_frame: Some(frame),
                    last_fade_type: Some(FadeType::Out),
                    frames_seen: seen,
                },
                None,
            )
        } else {
            (FadeState { last_scene_cut, frames_seen: seen, ..state }, None)
        },
        Some(FadeType::Out) => if !dark {
            let cut = passes_min_scene_len(frame, last_scene_cut, min_scene_len);
            let fade_out_frame = match state.last_fade_frame {
                Some(f) => f,
                None => frame,
            };
            (
                FadeState {
                    last_scene_cut: if cut {
                        frame
                    } else {
                        last_scene_cut
                    },
                    last_fade_frame: Some(frame),
                    last_fade_type: Some(FadeType::In),
                    frames_seen: seen,
                },
                if cut {
                    Some(
                        FadeReturn {
                            fade_out_frame,
                            duration: (if frame >= fade_out_frame {
                                frame - fade_out_frame
                            } else {
                                0
                            }) as u64,
                        },
                    )
                } else {
                    None
                },
            )
        } else {
            (FadeState { last_scene_cut, frames_seen: seen, ..state }, None)
        },
    }
}

/// Law: after each frame the fade type tells whether that frame was dark (a
/// light frame always ends a fade out, whether or not it makes a cut); the
/// fade frame moves to the frame exactly when the fade type changes (or on the
/// first frame); a fade returns a boundary exactly when a light frame ends a
/// fade out at least the minimum scene length after the last cut, and only
/// then does the last cut move, to that frame.
pub proof fn law_fade_type_follows_the_frames(state: FadeState, frame: u64, dark: bool, min_scene_len: u64)
    ensures
        ({
            let (next, fade) = fade_step(state, frame, dark, min_scene_len);
            let now = if dark {
                FadeType::Out
            } else {
                FadeType::In
            };
            let reference = if state.frames_seen == 0 {
                frame
            } else {
                state.last_scene_cut
            };
            &&& next.last_fade_type == Some(now)
            &&& next.last_fade_frame == if state.last_fade_type == Some(now) {
                state.last_fade_frame
            } else {
                Some(frame)
            }
            &&& next.frames_seen == state.frames_seen + 1 || state.frames_seen == u64::MAX
            &&& (fade is Some <==> (state.last_fade_type == Some(FadeType::Out) && !dark
                && passes_min_scene_len(frame, reference, min_scene_len)))
            &&& fade matches Some(f) ==> f.fade_out_frame == match state.last_fade_frame {
                Some(g) => g,
                None => frame,
            }
            &&& next.last_scene_cut == if fade is Some {
                frame
            } else {
                reference
            }
        }),
{
}

/// The boundary added at the end of a video that ends dark: the frame where the
/// final fade out began, when the last scene would be long enough.
pub open spec fn final_fade_boundary(state: FadeState, add_last_scene: bool, min_scene_len: u64) -> Option<u64> {
    if state.last_fade_type == Some(FadeType::Out) && add_last_scene && passes_min_scene_len(
        state.frames_seen,
        state.last_scene_cut,
        min_scene_len,
    ) {
        state.last_fade_frame
    } else {
        None
    }
}

/// The boundaries of a threshold detector, decided frame by frame.
pub struct FadeTracker {
    min_scene_len: u64,
    last_scene_cut: u64,
    last_fade_frame: Option<u64>,
    last_fade_type: Option<FadeType>,
    boundaries: Vec<SceneBoundary>,
    frames_seen: u64,
}

impl FadeTracker {
    pub closed spec fn state(&self) -> FadeState {
        FadeState {
            last_scene_cut: self.last_scene_cut,
            last_fade_frame: self.last_fade_frame,
            last_fade_type: self.last_fade_type,
            frames_seen: self.frames_seen,
        }
    }

    pub closed spec fn min_len(&self) -> u64 {
        self.min_scene_len
    }

    pub closed spec fn boundary_list(&self) -> Seq<u64> {
        boundary_frames(self.boundaries@)
    }

    pub fn new(min_scene_len: u64) -> (tracker: Self)
        ensures
            tracker.state() == (FadeState {
                last_scene_cut: 0,
                last_fade_frame: None,
                last_fade_type: None,
                frames_seen: 0,
            }),
            tracker.min_len() == min_scene_len,
            tracker.boundary_list() == Seq::<u64>::empty(),
    {
        let tracker = FadeTracker {
            min_scene_len,
            last_scene_cut: 0,
            last_fade_frame: None,
            last_fade_type: None,
            boundaries: Vec::new(),
            frames_seen: 0,
        };
        assert(tracker.boundary_list() =~= Seq::<u64>::empty());
        tracker
    }

    /// Observes a frame. When a fade ends far enough from the last cut, returns
    /// the fade, and the caller places the boundary inside it with `add_split`.
    pub fn observe(&mut self, frame: FrameIndex, dark: bool) -> (fade: Option<FadeReturn>)
        requires
            old(self).state().frames_seen < u64::MAX,
        ensures
            (final(self).state(), fade) == fade_step(old(self).state(), frame.0, dark, old(self).min_len()),
            final(self).min_len() == old(self).min_len(),
            final(self).boundary_list() == old(self).boundary_list(),
    {
        let frame_number = frame.0;
        if self.frames_seen == 0 {
            self.last_scene_cut = frame_number;
        }
        let mut fade: Option<FadeReturn> = None;
        match self.last_fade_type {
            None => {
                self.last_fade_frame = Some(frame_number);
                self.last_fade_type = Some(
                    if dark {
                        FadeType::Out
                    } else {
                        FadeType::In
                    },
                );
            },
            Some(FadeType::In) => {
                if dark {
                    self.last_fade_frame = Some(frame_number);
                    self.last_fade_type = Some(FadeType::Out);
                }
            },
            Some(FadeType::Out) => {
                if !dark {
                    if min_scene_len_passed(frame_number, self.last_scene_cut, self.min_scene_len) {
                        let fade_out_frame = match self.last_fade_frame {
                            Some(f) => f,
                            None => frame_number,
                        };
                        fade = Some(
                            FadeReturn {
                                fade_out_frame,
                                duration: frame_number.saturating_sub(fade_out_frame),
                            },
                        );
                        self.last_scene_cut = frame_number;
                    }
                    self.last_fade_frame = Some(frame_number);
                    self.last_fade_type = Some(FadeType::In);
                }
            },
        }
        self.frames_seen = self.frames_seen + 1;
        fade
    }

    /// Adds the boundary that splits a fade: `offset` frames after the frame
    /// where it began.
    pub fn add_split(&mut self, fade: FadeReturn, offset: u64)
        requires
            fade.fade_out_frame + offset <= u64::MAX,
        ensures
            final(self).boundary_list() == old(self).boundary_list().push(
                (fade.fade_out_frame + offset) as u64,
            ),
            final(self).state() == old(self).state(),
            final(self).min_len() == old(self).min_len(),
    {
        let ghost before = self.boundaries@;
        self.boundaries.push(SceneBoundary { frame: FrameIndex(fade.fade_out_frame + offset) });
        assert(boundary_frames(self.boundaries@) =~= boundary_frames(before).push(
            (fade.fade_out_frame + offset) as u64,
        ));
    }

    /// The boundaries, with the final fade out added when `add_last_scene`
    /// asks for it, and the number of frames seen.
    pub fn finish(self, add_last_scene: bool) -> (result: (Vec<SceneBoundary>, u64))
        ensures
            boundary_frames(result.0@) == match final_fade_boundary(
                self.state(),
                add_last_scene,
                self.min_len(),
            ) {
                Some(f) => self.boundary_list().push(f),
                None => self.boundary_list(),
            },
            result.1 == self.state().frames_seen,
    {
        let mut boundaries = self.boundaries;
        let ghost before = boundaries@;
        if self.last_fade_type == Some(FadeType::Out) && add_last_scene && min_scene_len_passed(
            self.frames_seen,
            self.last_scene_cut,
            self.min_scene_len,
        ) {
            if let Some(frame) = self.last_fade_frame {
                boundaries.push(SceneBoundary { frame: FrameIndex(frame) });
                assert(boundary_frames(boundaries@) =~= boundary_frames(before).push(frame));
            }
        }
        (boundaries, self.frames_seen)
    }
}

/// When the adaptive detector can decide about the frame at `next_emit`: its
/// ratio needs `window` frames on either side; a frame closer than that to the
/// start, or to the end once the video is over, gets no ratio.
pub open spec fn adaptive_readiness(next_emit: int, window: int, seen: int, finished: bool) -> Option<bool> {
    let ratio_ready = next_emit >= window && next_emit + window < seen;
    let edge_known = next_emit < window || (finished && next_emit + window >= seen);
    if next_emit >= seen || (!ratio_ready && !edge_known) {
        None
    } else {
        Some(ratio_ready)
    }
}

/// The order in which the adaptive detector decides about frames, and its
/// boundaries.
pub struct AdaptiveSchedule {
    window: usize,
    next_emit: usize,
    seen: usize,
    gate: CutGate,
}

impl AdaptiveSchedule {
    pub closed spec fn window_len(&self) -> usize {
        self.window
    }

    /// The position of the next frame to decide about.
    pub closed spec fn next_position(&self) -> usize {
        self.next_emit
    }

    /// The number of frames seen so far.
    pub closed spec fn frames_seen(&self) -> usize {
        self.seen
    }

    pub closed spec fn gate_state(&self) -> GateState {
        self.gate.state()
    }

    pub closed spec fn min_len(&self) -> u64 {
        self.gate.min_len()
    }

    pub closed spec fn wf(&self) -> bool {
        &&& self.next_emit <= self.seen
        &&& self.gate.seen() == self.next_emit
    }

    pub fn new(window: usize, min_scene_len: u64) -> (schedule: Self)
        ensures
            schedule.wf(),
            schedule.window_len() == window,
            schedule.next_position() == 0,
            schedule.frames_seen() == 0,
            schedule.gate_state() == initial_gate(),
            schedule.min_len() == min_scene_len,
    {
        AdaptiveSchedule { window, next_emit: 0, seen: 0, gate: CutGate::new(min_scene_len) }
    }

    /// The position of the next frame to decide about.
    pub fn next_frame_position(&self) -> (position: usize)
        ensures
            position == self.next_position(),
    {
        self.next_emit
    }

    /// The number of frames seen so far.
    pub fn seen_frames(&self) -> (seen: usize)
        ensures
            seen == self.frames_seen(),
    {
        self.seen
    }

    /// Records that one more frame's score is known.
    pub fn push_frame(&mut self)
        requires
            old(self).wf(),
            old(self).frames_seen() < usize::MAX,
        ensures
            final(self).wf(),
            final(self).frames_seen() == old(self).frames_seen() + 1,
            final(self).next_position() == old(self).next_position(),
            final(self).window_len() == old(self).window_len(),
            final(self).gate_state() == old(self).gate_state(),
            final(self).min_len() == old(self).min_len(),
    {
        self.seen = self.seen + 1;
    }

    /// Whether the frame at the next position can be decided now, and if so,
    /// whether it has a full window for its ratio. `finished` tells that no more
    /// frames will come.
    pub fn next_ready(&self, finished: bool) -> (ready: Option<bool>)
        requires
            self.wf(),
        ensures
            ready == adaptive_readiness(
                self.next_position() as int,
                self.window_len() as int,
                self.frames_seen() as int,
                finished,
            ),
    {
        let next = self.next_emit;
        let window = self.window;
        let seen = self.seen;
        if next >= seen {
            return None;
        }
        let inside = window < seen && next < seen - window;
        let ratio_ready = next >= window && inside;
        let edge_known = next < window || (finished && !inside);
        if !ratio_ready && !edge_known {
            None
        } else {
            Some(ratio_ready)
        }
    }

    /// Decides about the frame at the next position, `frame`; `is_cut` tells
    /// whether its content value and ratio reach their thresholds. Tells whether
    /// it became a boundary.
    pub fn decide(&mut self, frame: FrameIndex, is_cut: bool) -> (accepted: bool)
        requires
            old(self).wf(),
            old(self).next_position() < old(self).frames_seen(),
        ensures
            final(self).wf(),
            final(self).next_position() == old(self).next_position() + 1,
            final(self).frames_seen() == old(self).frames_seen(),
            final(self).window_len() == old(self).window_len(),
            final(self).min_len() == old(self).min_len(),
            final(self).gate_state() == cut_step(old(self).gate_state(), frame.0, is_cut, old(self).min_len()),
            accepted == (is_cut && passes_min_scene_len(frame.0, old(self).gate_state().last, old(self).min_len())),
    {
        let accepted = self.gate.observe(frame, is_cut);
        self.next_emit = self.next_emit + 1;
        accepted
    }

    /// Reviews the frame at the next position: below the review threshold
    /// (`in_review` false) it gets no status; below the detector threshold it is a
    /// near miss; otherwise the minimum scene length decides.
    pub fn review(&mut self, frame: FrameIndex, in_review: bool, at_threshold: bool) -> (status:
        Option<BoundaryCandidateStatus>)
        requires
            old(self).wf(),
            old(self).next_position() < old(self).frames_seen(),
        ensures
            final(self).wf(),
            final(self).next_position() == old(self).next_position() + 1,
            final(self).frames_seen() == old(self).frames_seen(),
            final(self).window_len() == old(self).window_len(),
            final(self).min_len() == old(self).min_len(),
            final(self).gate_state() == cut_step(
                old(self).gate_state(),
                frame.0,
                in_review && at_threshold,
                old(self).min_len(),
            ),
            status == if in_review {
                Some(candidate_status(old(self).gate_state(), frame.0, at_threshold, old(self).min_len()))
            } else {
                None::<BoundaryCandidateStatus>
            },
    {
        let accepted = self.gate.observe(frame, in_review && at_threshold);
        self.next_emit = self.next_emit + 1;
        if !in_review {
            None
        } else if !at_threshold {
            Some(BoundaryCandidateStatus::NearMiss)
        } else if accepted {
            Some(BoundaryCandidateStatus::Accepted)
        } else {
            Some(BoundaryCandidateStatus::SuppressedMinSceneLen)
        }
    }

    /// Frames at positions below this one are no longer needed.
    pub fn keep_from(&self) -> (position: usize)
        ensures
            position == if self.next_position() >= self.window_len() {
                self.next_position() - self.window_len()
            } else {
                0
            },
    {
        self.next_emit.saturating_sub(self.window)
    }

    /// The boundaries and the number of frames seen.
    pub fn finish(self) -> (result: (Vec<SceneBoundary>, u64))
        requires
            self.wf(),
        ensures
            boundary_frames(result.0@) == self.gate_state().accepted,
            result.1 == self.frames_seen(),
    {
        let (boundaries, _) = self.gate.finish();
        (boundaries, self.seen as u64)
    }
}

/// Law: a frame that gets an adaptive ratio has its whole window, `window` frames
/// on either side, among the frames already seen and not yet let go.
pub proof fn law_adaptive_window_is_complete(next_emit: int, window: int, seen: int, finished: bool)
    requires
        0 <= next_emit,
        0 <= window,
        adaptive_readiness(next_emit, window, seen, finished) == Some(true),
    ensures
        next_emit - window >= 0,
        next_emit - window >= (if next_emit >= window { next_emit - window } else { 0 }),
        next_emit + window < seen,
{
}

/// Law: once the video is over, decisions continue until every frame seen has
/// been decided about.
pub proof fn law_adaptive_decides_every_frame(next_emit: int, window: int, seen: int)
    requires
        0 <= next_emit,
        0 <= window,
    ensures
        adaptive_readiness(next_emit, window, seen, true) is None <==> next_emit >= seen,
{
}

} // verus!
