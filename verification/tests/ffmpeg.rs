use scenedetect::ffmpeg::{
    parse_showinfo_integer, parse_showinfo_time_base, parse_showinfo_timing, parse_time_base,
    parse_time_base_components, FfmpegBinaries, FfmpegError,
};
use scenedetect::model::SceneDetectError;
use scenedetect::timing::{MediaTime, TimeBase};

fn seconds(time: MediaTime) -> f64 {
    time.ticks as f64 * time.time_base.numerator as f64 / time.time_base.denominator as f64
}

#[test]
fn parses_showinfo_time_base_and_frame_timing() {
    let configured = "[Parsed_showinfo_0 @ 0x1234] config in time_base: 1/1000, frame_rate: 0/0";
    let time_base = parse_showinfo_time_base(configured).unwrap();
    assert_eq!(time_base, TimeBase::new(1, 1000).unwrap());

    let line = "[Parsed_showinfo_0 @ 0x1234] n:   1 pts:    125 pts_time:0.125 duration:     40 duration_time:0.04 fmt:rgb24";
    let timing = parse_showinfo_timing(line, time_base).unwrap();
    assert_eq!(timing.presentation_time.unwrap().ticks, 125);
    assert_eq!(timing.duration.unwrap().ticks, 40);
    assert!((seconds(timing.presentation_time.unwrap()) - 0.125).abs() < 1.0e-12);
}

#[test]
fn showinfo_lines_without_frame_fields_carry_no_timing() {
    let time_base = TimeBase::new(1, 25).unwrap();
    assert_eq!(
        parse_showinfo_timing("[Parsed_showinfo_0 @ 0x1] config in time_base: 1/25", time_base),
        None
    );
    assert_eq!(parse_showinfo_timing("n: 1 pts: 5 duration: 1", time_base), None);
}

#[test]
fn showinfo_timing_keeps_an_unreadable_duration_unknown() {
    let time_base = TimeBase::new(1, 25).unwrap();
    let timing = parse_showinfo_timing("[Parsed_showinfo_0] n: 4 pts: -3 duration: ?", time_base).unwrap();
    assert_eq!(timing.presentation_time, Some(MediaTime::new(-3, time_base)));
    assert_eq!(timing.duration, None);
}

#[test]
fn showinfo_integer_reads_the_word_after_the_field() {
    assert_eq!(parse_showinfo_integer("a pts:\t 42 b", "pts:"), Some(42));
    assert_eq!(parse_showinfo_integer("a pts:+7", "pts:"), Some(7));
    assert_eq!(parse_showinfo_integer("a pts: 9223372036854775808", "pts:"), None);
    assert_eq!(parse_showinfo_integer("a pts: -9223372036854775808", "pts:"), Some(i64::MIN));
    assert_eq!(parse_showinfo_integer("a pts:   ", "pts:"), None);
    assert_eq!(parse_showinfo_integer("no field here", "pts:"), None);
}

#[test]
fn showinfo_time_base_drops_trailing_commas() {
    assert_eq!(
        parse_showinfo_time_base("config in time_base: 1001/30000,, x"),
        Some(TimeBase::new(1001, 30000).unwrap())
    );
    assert_eq!(parse_showinfo_time_base("config in time_base: 1/0,"), None);
    assert_eq!(parse_showinfo_time_base("time_base: 1/25"), None);
}

#[test]
fn time_base_components_split_at_the_first_slash() {
    assert_eq!(parse_time_base_components("1/90000"), Some(TimeBase::new(1, 90000).unwrap()));
    assert_eq!(parse_time_base_components("-1/-2"), Some(TimeBase { numerator: -1, denominator: -2 }));
    assert_eq!(parse_time_base_components("1/2/3"), None);
    assert_eq!(parse_time_base_components("12"), None);
    assert_eq!(parse_time_base_components("a/2"), None);
}

#[test]
fn probed_time_base_errors_name_the_value() {
    assert_eq!(parse_time_base("1/24").unwrap(), TimeBase::new(1, 24).unwrap());
    match parse_time_base("oops") {
        Err(SceneDetectError::FrameSource(message)) => {
            assert_eq!(message, "invalid ffprobe time base: oops")
        }
        other => panic!("unexpected result: {other:?}"),
    }
}

#[test]
fn ffmpeg_error_messages_are_actionable() {
    assert_eq!(
        FfmpegError::MissingFfmpeg("/nope/ffmpeg".to_owned()).message(),
        "ffmpeg executable was not found (tried /nope/ffmpeg). Install FFmpeg and ensure ffmpeg is on PATH, or configure an explicit binary path"
    );
    assert_eq!(
        FfmpegError::MissingFfprobe("ffprobe".to_owned()).message(),
        "ffprobe executable was not found (tried ffprobe). Install FFmpeg and ensure ffprobe is on PATH, or configure an explicit binary path"
    );
    assert_eq!(
        FfmpegError::MissingVideoStream("a.txt".to_owned()).message(),
        "ffprobe did not report a video stream for a.txt"
    );
    assert_eq!(
        FfmpegError::InvalidFrameRate("x/y".to_owned()).message(),
        "invalid ffprobe frame rate: x/y"
    );
}

#[test]
fn default_binaries_are_looked_up_on_path() {
    let binaries = FfmpegBinaries::default();
    assert_eq!(binaries.ffmpeg, "ffmpeg");
    assert_eq!(binaries.ffprobe, "ffprobe");
}
