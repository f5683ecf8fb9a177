//! The plain data of scene detection: frame positions, frames, scenes, options.
use vstd::prelude::*;

verus! {

/// Zero-based index of a decoded frame.
#[derive(Debug, Clone, Copy, PartialEq, Eq, Structural)]
pub struct FrameIndex(pub u64);

/// Frames per second, held as the bit pattern of an IEEE-754 binary64 value.
///
/// The library never computes with a frame rate; it carries it from the frame
/// source to the scene list unchanged. `f64::from_bits` recovers the number.
#[derive(Debug, Clone, Copy, PartialEq, Eq, Structural)]
pub struct FrameRate(pub u64);

/// A frame position or duration, counted in frames.
#[derive(Debug, Clone, Copy, PartialEq, Eq, Structural)]
pub struct Timecode {
    frames: u64,
}

impl Timecode {
    /// The number of frames this timecode stands for.
    pub closed spec fn spec_frames(self) -> u64 {
        self.frames
    }

    pub fn from_frames(frames: u64) -> (t: Self)
        ensures
            t.spec_frames() == frames,
    {
        Self { frames }
    }

    pub fn frames(self) -> (f: u64)
        ensures
            f == self.spec_frames(),
    {
        self.frames
    }
}

/// One decoded RGB image at a known frame index: `rgb` holds three bytes per
/// pixel, row by row.
#[derive(Debug, Clone, PartialEq)]
pub struct Frame {
    pub index: FrameIndex,
    pub width: u32,
    pub height: u32,
    pub rgb: Vec<u8>,
}

/// The pixel bytes of a frame of `pixels` pixels that all have colour `rgb`.
pub open spec fn solid_pixels(pixels: nat, rgb: Seq<u8>) -> Seq<u8> {
    Seq::new(3 * pixels, |i: int| rgb[i % 3])
}

impl Frame {
    /// A frame of the given size in which every pixel has the colour `rgb`.
    pub fn solid(index: u64, width: u32, height: u32, rgb: [u8; 3]) -> (frame: Self)
        requires
            width as int * height as int * 3 <= usize::MAX,
        ensures
            frame.index == FrameIndex(index),
            frame.width == width,
            frame.height == height,
            frame.rgb@ == solid_pixels((width * height) as nat, rgb@),
    {
        let pixel_count: usize = width as usize * height as usize;
        let mut pixels: Vec<u8> = Vec::with_capacity(pixel_count * 3);
        let mut written: usize = 0;
        while written < pixel_count
            invariant
                pixel_count == width * height,
                pixel_count * 3 <= usize::MAX,
                written <= pixel_count,
                pixels@.len() == 3 * written,
                forall|i: int| 0 <= i < pixels@.len() ==> #[trigger] pixels@[i] == rgb@[i % 3],
            decreases pixel_count - written,
        {
            pixels.push(rgb[0]);
            pixels.push(rgb[1]);
            pixels.push(rgb[2]);
            written = written + 1;
        }
        let frame = Self { index: FrameIndex(index), width, height, rgb: pixels };
        assert(frame.rgb@ =~= solid_pixels((width * height) as nat, rgb@));
        frame
    }
}

/// A frame position where one scene ends and the next begins.
#[derive(Debug, Clone, Copy, PartialEq, Eq, Structural)]
pub struct SceneBoundary {
    pub frame: FrameIndex,
}

/// A contiguous range of frames `[start, end)` belonging to one scene.
#[derive(Debug, Clone, Copy, PartialEq, Eq, Structural)]
pub struct SceneSpan {
    pub start: FrameIndex,
    pub end: FrameIndex,
}

/// Ordered scene spans emitted by detection.
#[derive(Debug, Clone, PartialEq)]
pub struct SceneList {
    pub frame_rate: FrameRate,
    pub scenes: Vec<SceneSpan>,
}

/// How a final scene shorter than the minimum scene length is handled.
#[derive(Debug, Clone, Copy, PartialEq, Eq, Structural)]
pub enum MinSceneLenPolicy {
    /// Keep it as it is.
    Suppress,
    /// Merge it into the scene before it.
    MergeLast,
}

/// Options shared by every detector.
#[derive(Debug, Clone, Copy, PartialEq, Eq, Structural)]
pub struct DetectionOptions {
    pub min_scene_len: u64,
    pub min_scene_len_policy: MinSceneLenPolicy,
}

impl Default for DetectionOptions {
    fn default() -> (options: Self)
        ensures
            options.min_scene_len == 15,
            options.min_scene_len_policy == MinSceneLenPolicy::Suppress,
    {
        Self { min_scene_len: 15, min_scene_len_policy: MinSceneLenPolicy::Suppress }
    }
}

/// What a detector decided about one frame.
#[derive(Debug, Clone, Copy, PartialEq, Eq, Structural)]
pub enum DetectionStatsDecision {
    NotEvaluated,
    Accepted,
    SuppressedMinSceneLen,
    BelowThreshold,
}

/// How a boundary candidate fared in review.
#[derive(Debug, Clone, Copy, PartialEq, Eq, Structural)]
pub enum BoundaryCandidateStatus {
    Accepted,
    SuppressedMinSceneLen,
    NearMiss,
}

/// The export name of a boundary candidate status.
pub open spec fn status_name(status: BoundaryCandidateStatus) -> Seq<char> {
    match status {
        BoundaryCandidateStatus::Accepted => "accepted"@,
        BoundaryCandidateStatus::SuppressedMinSceneLen => "suppressed_min_scene_len"@,
        BoundaryCandidateStatus::NearMiss => "near_miss"@,
    }
}

impl BoundaryCandidateStatus {
    pub fn as_str(self) -> (name: &'static str)
        ensures
            name@ == status_name(self),
    {
        match self {
            Self::Accepted => "accepted",
            Self::SuppressedMinSceneLen => "suppressed_min_scene_len",
            Self::NearMiss => "near_miss",
        }
    }
}

/// The scene before or after a boundary candidate, as `[start, end)`.
#[derive(Debug, Clone, Copy, PartialEq, Eq, Structural)]
pub struct ReviewSceneContext {
    pub start: FrameIndex,
    pub end: FrameIndex,
}

/// A detection stats sink that discards everything it is given.
#[derive(Debug, Default)]
pub struct NoopStatsSink;

/// Errors of scene detection that the library itself raises.
#[derive(Debug)]
pub enum SceneDetectError {
    InvalidTimecode(String),
    UnsupportedBoundaryReview(String),
    FrameSource(String),
}

} // verus!
