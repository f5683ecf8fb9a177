use scenedetect::timing::{
    convert_ticks, exact_frame_end_time, greatest_common_divisor, is_positive_time_base,
    media_time_fraction, FrameTiming, MediaTime, TimeBase,
};

#[test]
fn time_bases_need_a_denominator() {
    assert_eq!(TimeBase::new(1, 0), None);
    assert!(is_positive_time_base(TimeBase::new(-1, -25).unwrap()));
    assert!(!is_positive_time_base(TimeBase::new(-1, 25).unwrap()));
}

#[test]
fn ticks_convert_only_when_exact() {
    let ms = TimeBase::new(1, 1000).unwrap();
    let tenth = TimeBase::new(1, 10).unwrap();
    assert_eq!(convert_ticks(MediaTime::new(300, ms), tenth), Some(3));
    assert_eq!(convert_ticks(MediaTime::new(301, ms), tenth), None);
    assert_eq!(convert_ticks(MediaTime::new(-7, tenth), ms), Some(-700));
    assert_eq!(convert_ticks(MediaTime::new(i64::MAX, ms), TimeBase::new(1, 1_000_000).unwrap()), None);
}

#[test]
fn fractions_and_divisors() {
    assert_eq!(media_time_fraction(MediaTime::new(3, TimeBase::new(2, -5).unwrap())), Some((-6, 5)));
    assert_eq!(greatest_common_divisor(12, -18), 6);
    assert_eq!(greatest_common_divisor(0, 0), 1);
}

#[test]
fn frame_end_needs_known_positive_timing() {
    let tb = TimeBase::new(1, 25).unwrap();
    let timing = FrameTiming {
        presentation_time: Some(MediaTime::new(10, tb)),
        duration: Some(MediaTime::new(1, tb)),
    };
    assert_eq!(exact_frame_end_time(&timing), Some(MediaTime::new(11, tb)));
    let negative = FrameTiming { duration: Some(MediaTime::new(-1, tb)), ..timing };
    assert_eq!(exact_frame_end_time(&negative), None);
    let unknown = FrameTiming { presentation_time: None, ..timing };
    assert_eq!(exact_frame_end_time(&unknown), None);
}
