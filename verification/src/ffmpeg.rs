//! What the FFmpeg frame source reads from `ffprobe` and from the decoder's
//! `showinfo` log, and how it reports what went wrong.
use vstd::prelude::*;
use vstd::string::StringExecFns;

use crate::model::{FrameRate, SceneDetectError};
use crate::numeral::{
    find, find_in, first_word, first_word_of, parse_i64, parse_i64_spec, slice_of,
    trim_commas_at_end, trim_trailing_commas,
};
use crate::text::{chars_of, concat};
use crate::timing::{FrameTiming, MediaTime, TimeBase};

verus! {

/// Why the FFmpeg tools could not be used. Paths are held as text.
#[derive(Debug, Clone, PartialEq, Eq)]
pub enum FfmpegError {
    MissingFfmpeg(String),
    MissingFfprobe(String),
    MissingVideoStream(String),
    InvalidFrameRate(String),
}

/// The message that reports an FFmpeg error.
pub open spec fn ffmpeg_error_text(error: FfmpegError) -> Seq<char> {
    match error {
        FfmpegError::MissingFfmpeg(path) => "ffmpeg executable was not found (tried "@ + path@
            + "). Install FFmpeg and ensure ffmpeg is on PATH, or configure an explicit binary path"@,
        FfmpegError::MissingFfprobe(path) => "ffprobe executable was not found (tried "@ + path@
            + "). Install FFmpeg and ensure ffprobe is on PATH, or configure an explicit binary path"@,
        FfmpegError::MissingVideoStream(path) => "ffprobe did not report a video stream for "@
            + path@,
        FfmpegError::InvalidFrameRate(value) => "invalid ffprobe frame rate: "@ + value@,
    }
}

impl FfmpegError {
    pub fn message(&self) -> (text: String)
        ensures
            text@ == ffmpeg_error_text(*self),
    {
        match self {
            FfmpegError::MissingFfmpeg(path) => {
                let head = concat("ffmpeg executable was not found (tried ", path.as_str());
                concat(
                    head.as_str(),
                    "). Install FFmpeg and ensure ffmpeg is on PATH, or configure an explicit binary path",
                )
            },
            FfmpegError::MissingFfprobe(path) => {
                let head = concat("ffprobe executable was not found (tried ", path.as_str());
                concat(
                    head.as_str(),
                    "). Install FFmpeg and ensure ffprobe is on PATH, or configure an explicit binary path",
                )
            },
            FfmpegError::MissingVideoStream(path) => concat(
                "ffprobe did not report a video stream for ",
                path.as_str(),
            ),
            FfmpegError::InvalidFrameRate(value) => concat(
                "invalid ffprobe frame rate: ",
                value.as_str(),
            ),
        }
    }
}

/// The FFmpeg programs to run, by path.
#[derive(Debug, Clone, PartialEq, Eq)]
pub struct FfmpegBinaries {
    pub ffmpeg: String,
    pub ffprobe: String,
}

impl Default for FfmpegBinaries {
    /// `ffmpeg` and `ffprobe`, looked up on `PATH`.
    fn default() -> (binaries: Self)
        ensures
            binaries.ffmpeg@ == "ffmpeg"@,
            binaries.ffprobe@ == "ffprobe"@,
    {
        FfmpegBinaries {
            ffmpeg: <String as StringExecFns>::from_str("ffmpeg"),
            ffprobe: <String as StringExecFns>::from_str("ffprobe"),
        }
    }
}

/// Size and frame rate of a probed video stream.
#[derive(Debug, Clone, Copy, PartialEq, Eq, Structural)]
pub struct VideoMetadata {
    pub width: u32,
    pub height: u32,
    pub frame_rate: FrameRate,
}

/// `value` split at its first `/` and read as two `i64`, when the denominator
/// is not zero.
pub open spec fn time_base_components(value: Seq<char>) -> Option<TimeBase> {
    match find(value, seq!['/']) {
        None => None,
        Some(k) => match (parse_i64_spec(value.take(k)), parse_i64_spec(value.skip(k + 1))) {
            (Some(numerator), Some(denominator)) => if denominator != 0 {
                Some(TimeBase { numerator, denominator })
            } else {
                None
            },
            _ => None,
        },
    }
}

/// The integer that follows the first occurrence of `field` in `line`, as the
/// first whitespace-separated word after it.
pub open spec fn showinfo_integer(line: Seq<char>, field: Seq<char>) -> Option<i64> {
    match find(line, field) {
        None => None,
        Some(k) => match first_word(line.skip(k + field.len())) {
            None => None,
            Some(word) => parse_i64_spec(word),
        },
    }
}

/// The time base announced by a `showinfo` configuration line.
pub open spec fn showinfo_time_base(line: Seq<char>) -> Option<TimeBase> {
    let marker = "config in time_base:"@;
    match find(line, marker) {
        None => None,
        Some(k) => match first_word(line.skip(k + marker.len())) {
            None => None,
            Some(word) => time_base_components(trim_trailing_commas(word)),
        },
    }
}

/// The timing in a `showinfo` per-frame line: one that names `showinfo` and has
/// ` n:` and ` pts:` fields.
pub open spec fn showinfo_timing(line: Seq<char>, time_base: TimeBase) -> Option<FrameTiming> {
    if find(line, "showinfo"@) is None || find(line, " n:"@) is None || find(line, " pts:"@) is None {
        None
    } else {
        Some(
            FrameTiming {
                presentation_time: match showinfo_integer(line, "pts:"@) {
                    Some(ticks) => Some(MediaTime { ticks, time_base }),
                    None => None,
                },
                duration: match showinfo_integer(line, "duration:"@) {
                    Some(ticks) => Some(MediaTime { ticks, time_base }),
                    None => None,
                },
            },
        )
    }
}

/// Reads `numerator/denominator` as a time base.
pub fn parse_time_base_components(value: &str) -> (time_base: Option<TimeBase>)
    ensures
        time_base == time_base_components(value@),
{
    let chars = chars_of(value);
    let slash = chars_of("/");
    proof {
        reveal_strlit("/");
        crate::numeral::lemma_find_bounds(value@, seq!['/']);
    }
    assert(slash@ =~= seq!['/']);
    match find_in(&chars, &slash) {
        None => None,
        Some(k) => {
            let numerator_chars = slice_of(&chars, 0, k);
            let denominator_chars = slice_of(&chars, k + 1, chars.len());
            assert(numerator_chars@ =~= value@.take(k as int));
            assert(denominator_chars@ =~= value@.skip(k + 1));
            match (parse_i64(&numerator_chars), parse_i64(&denominator_chars)) {
                (Some(numerator), Some(denominator)) => TimeBase::new(numerator, denominator),
                _ => None,
            }
        },
    }
}

/// The message for a time base that `ffprobe` reported and that could not be read.
pub open spec fn invalid_time_base_text(value: Seq<char>) -> Seq<char> {
    "invalid ffprobe time base: "@ + value
}

/// Reads the time base of a probed stream.
pub fn parse_time_base(value: &str) -> (result: Result<TimeBase, SceneDetectError>)
    ensures
        match time_base_components(value@) {
            Some(time_base) => result == Ok::<TimeBase, SceneDetectError>(time_base),
            None => result matches Err(SceneDetectError::FrameSource(message)) && message@
                == invalid_time_base_text(value@),
        },
{
    match parse_time_base_components(value) {
        Some(time_base) => Ok(time_base),
        None => Err(SceneDetectError::FrameSource(concat("invalid ffprobe time base: ", value))),
    }
}

/// The word after the first occurrence of `marker` in `line`.
fn word_after(line: &Vec<char>, marker: &Vec<char>) -> (word: Option<Vec<char>>)
    ensures
        match find(line@, marker@) {
            None => word is None,
            Some(k) => match first_word(line@.skip(k + marker@.len())) {
                None => word is None,
                Some(w) => word matches Some(v) && v@ == w,
            },
        },
{
    proof {
        crate::numeral::lemma_find_bounds(line@, marker@);
    }
    match find_in(line, marker) {
        None => None,
        Some(k) => {
            let line_len = line.len();
            let rest = slice_of(line, k + marker.len(), line_len);
            assert(rest@ =~= line@.skip(k + marker@.len()));
            first_word_of(&rest)
        },
    }
}

/// Reads the integer after `field` in a `showinfo` line.
pub fn parse_showinfo_integer(line: &str, field: &str) -> (value: Option<i64>)
    ensures
        value == showinfo_integer(line@, field@),
{
    let chars = chars_of(line);
    let field_chars = chars_of(field);
    match word_after(&chars, &field_chars) {
        None => None,
        Some(word) => parse_i64(&word),
    }
}

/// Reads the time base from a `showinfo` configuration line.
pub fn parse_showinfo_time_base(line: &str) -> (time_base: Option<TimeBase>)
    ensures
        time_base == showinfo_time_base(line@),
{
    let chars = chars_of(line);
    let marker = chars_of("config in time_base:");
    match word_after(&chars, &marker) {
        None => None,
        Some(word) => {
            let trimmed = trim_commas_at_end(&word);
            let value = crate::text::string_of(&trimmed);
            parse_time_base_components(value.as_str())
        },
    }
}

/// Reads the presentation time and duration from a `showinfo` per-frame line,
/// counted in `time_base`.
pub fn parse_showinfo_timing(line: &str, time_base: TimeBase) -> (timing: Option<FrameTiming>)
    ensures
        timing == showinfo_timing(line@, time_base),
{
    let chars = chars_of(line);
    let name = chars_of("showinfo");
    let frame_field = chars_of(" n:");
    let pts_field = chars_of(" pts:");
    if find_in(&chars, &name).is_none() || find_in(&chars, &frame_field).is_none() || find_in(
        &chars,
        &pts_field,
    ).is_none() {
        return None;
    }
    let presentation_time = match parse_showinfo_integer(line, "pts:") {
        Some(ticks) => Some(MediaTime::new(ticks, time_base)),
        None => None,
    };
    let duration = match parse_showinfo_integer(line, "duration:") {
        Some(ticks) => Some(MediaTime::new(ticks, time_base)),
        None => None,
    };
    Some(FrameTiming { presentation_time, duration })
}

} // verus!
