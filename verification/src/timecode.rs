//! The three spellings of a timecode: a frame count, seconds, or a clock.
use vstd::prelude::*;
use vstd::string::StringExecFns;

use crate::model::{SceneDetectError, Timecode};
use crate::numeral::{find, find_in, parse_u64, parse_u64_spec, slice_of};
use crate::text::{chars_of, string_of};

verus! {

/// How a timecode is written, before any number in it is read.
#[derive(Debug, Clone, PartialEq, Eq)]
pub enum TimecodeText {
    /// `hours:minutes:seconds`, each part still to be read as a decimal number.
    Clock { hours: String, minutes: String, seconds: String },
    /// A number of seconds followed by `s`; the text before the `s`.
    Seconds(String),
    /// A whole number of frames.
    Frames(u64),
}

/// The spelling of a timecode, or `None` when it is none of the three.
pub open spec fn timecode_text(input: Seq<char>) -> Option<(u8, Seq<char>, Seq<char>, Seq<char>)> {
    match find(input, seq![':']) {
        Some(first) => {
            let rest = input.skip(first + 1);
            match find(rest, seq![':']) {
                Some(second) => {
                    let last = rest.skip(second + 1);
                    if find(last, seq![':']) is Some {
                        None
                    } else {
                        Some((0u8, input.take(first), rest.take(second), last))
                    }
                },
                None => None,
            }
        },
        None => if input.len() > 0 && input.last() == 's' {
            Some((1u8, input.drop_last(), Seq::empty(), Seq::empty()))
        } else {
            match parse_u64_spec(input) {
                Some(_) => Some((2u8, input, Seq::empty(), Seq::empty())),
                None => None,
            }
        },
    }
}

/// What `classify` gives for `input`.
pub open spec fn classified(input: Seq<char>, text: TimecodeText) -> bool {
    match timecode_text(input) {
        Some((kind, a, b, c)) => if kind == 0 {
            text matches TimecodeText::Clock { hours, minutes, seconds } && hours@ == a
                && minutes@ == b && seconds@ == c
        } else if kind == 1 {
            text matches TimecodeText::Seconds(s) && s@ == a
        } else {
            text == TimecodeText::Frames(parse_u64_spec(input)->0)
        },
        None => false,
    }
}

/// The position of the first `:` in `s`, if any.
fn colon_in(s: &Vec<char>) -> (at: Option<usize>)
    ensures
        match find(s@, seq![':']) {
            Some(k) => at == Some(k as usize) && 0 <= k < s@.len(),
            None => at is None,
        },
{
    let colon = chars_of(":");
    proof {
        reveal_strlit(":");
        crate::numeral::lemma_find_bounds(s@, seq![':']);
    }
    assert(colon@ =~= seq![':']);
    find_in(s, &colon)
}

impl Timecode {
    /// Reads a frame count (`Timecode::from_str`).
    pub fn parse(value: &str) -> (result: Result<Timecode, SceneDetectError>)
        ensures
            match parse_u64_spec(value@) {
                Some(frames) => result matches Ok(t) && t.spec_frames() == frames,
                None => result matches Err(SceneDetectError::InvalidTimecode(text)) && text@
                    == value@,
            },
    {
        let chars = chars_of(value);
        match parse_u64(&chars) {
            Some(frames) => Ok(Timecode::from_frames(frames)),
            None => Err(SceneDetectError::InvalidTimecode(<String as StringExecFns>::from_str(value))),
        }
    }

    /// Tells which of the three spellings `input` uses. A text with a `:` must
    /// have exactly three `:`-separated parts; otherwise a trailing `s` marks
    /// seconds, and anything else must be a whole number of frames.
    pub fn classify(input: &str) -> (result: Result<TimecodeText, SceneDetectError>)
        ensures
            match result {
                Ok(text) => classified(input@, text),
                Err(error) => timecode_text(input@) is None && (error
                    matches SceneDetectError::InvalidTimecode(text) && text@ == input@),
            },
            timecode_text(input@) is Some ==> result is Ok,
    {
        let chars = chars_of(input);
        let n = chars.len();
        match colon_in(&chars) {
            Some(first) => {
                let rest = slice_of(&chars, first + 1, n);
                assert(rest@ =~= input@.skip(first + 1));
                match colon_in(&rest) {
                    Some(second) => {
                        let last = slice_of(&rest, second + 1, rest.len());
                        assert(last@ =~= rest@.skip(second + 1));
                        if colon_in(&last).is_some() {
                            return Err(
                                SceneDetectError::InvalidTimecode(
                                    <String as StringExecFns>::from_str(input),
                                ),
                            );
                        }
                        let hours = slice_of(&chars, 0, first);
                        let minutes = slice_of(&rest, 0, second);
                        assert(hours@ =~= input@.take(first as int));
                        assert(minutes@ =~= rest@.take(second as int));
                        Ok(
                            TimecodeText::Clock {
                                hours: string_of(&hours),
                                minutes: string_of(&minutes),
                                seconds: string_of(&last),
                            },
                        )
                    },
                    None => Err(
                        SceneDetectError::InvalidTimecode(
                            <String as StringExecFns>::from_str(input),
                        ),
                    ),
                }
            },
            None => {
                if n > 0 && chars[n - 1] == 's' {
                    let number = slice_of(&chars, 0, n - 1);
                    assert(number@ =~= input@.drop_last());
                    return Ok(TimecodeText::Seconds(string_of(&number)));
                }
                match parse_u64(&chars) {
                    Some(frames) => Ok(TimecodeText::Frames(frames)),
                    None => Err(
                        SceneDetectError::InvalidTimecode(
                            <String as StringExecFns>::from_str(input),
                        ),
                    ),
                }
            },
        }
    }
}

impl std::str::FromStr for Timecode {
    type Err = SceneDetectError;

    fn from_str(value: &str) -> (result: Result<Timecode, SceneDetectError>)
        ensures
            match parse_u64_spec(value@) {
                Some(frames) => result matches Ok(t) && t.spec_frames() == frames,
                None => result matches Err(SceneDetectError::InvalidTimecode(text)) && text@
                    == value@,
            },
    {
        Timecode::parse(value)
    }
}

} // verus!
