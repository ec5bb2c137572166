use rusty_studio::base::Time;
use rusty_studio::base::Timebase;
use rusty_studio::base::TimecodeParts;

#[test]
fn test_parse_timecode_parts() {
    let parts = TimecodeParts::from_timecode("00:00:05:15").unwrap();
    assert_eq!(parts.hh, 0);
    assert_eq!(parts.mm, 0);
    assert_eq!(parts.ss, 5);
    assert_eq!(parts.ff, 15);
    assert_eq!(parts.drop_frame, false);
}

#[test]
fn test_parse_timecode_drop_frame() {
    let parts = TimecodeParts::from_timecode("00:00:05;15").unwrap();
    assert!(parts.drop_frame);
}

#[test]
fn test_parse_timecode_rejects_malformed() {
    assert!(TimecodeParts::from_timecode("wrong").is_err());
    assert!(TimecodeParts::from_timecode("").is_err());
    assert!(TimecodeParts::from_timecode("0:00:05:15").is_err());
    assert!(TimecodeParts::from_timecode("00.00.05.15").is_err());
    assert!(Time::from_timecode("something wrong", &Timebase::new(60)).is_err());
}

#[test]
fn test_parse_timecode_embedded() {
    // The timecode may stand anywhere in the text; the first match counts.
    let parts = TimecodeParts::from_timecode("tc 12:34:56:07 trailing").unwrap();
    assert_eq!(parts.hh, 12);
    assert_eq!(parts.mm, 34);
    assert_eq!(parts.ss, 56);
    assert_eq!(parts.ff, 7);
}

#[test]
fn test_parse_timestamp_parts() {
    let parts = TimecodeParts::from_timestamp("12:34:56.789").unwrap();
    assert_eq!(parts.hh, 12);
    assert_eq!(parts.mm, 34);
    assert_eq!(parts.ss, 56);
    assert_eq!(parts.ff, 789);
    assert_eq!(parts.drop_frame, false);
}

#[test]
fn test_parse_timestamp_separators() {
    // Any one of the four separators may stand before the milliseconds.
    assert_eq!(TimecodeParts::from_timestamp("00:00:01.500").unwrap().ff, 500);
    assert_eq!(TimecodeParts::from_timestamp("00:00:01,500").unwrap().ff, 500);
    assert_eq!(TimecodeParts::from_timestamp("00:00:01:500").unwrap().ff, 500);
    assert_eq!(TimecodeParts::from_timestamp("00:00:01;500").unwrap().ff, 500);
    assert!(TimecodeParts::from_timestamp("00:00:01-500").is_err());
    assert!(TimecodeParts::from_timestamp("wrong").is_err());
}

#[test]
fn test_write_timecode_parts() {
    let parts = TimecodeParts { hh: 12, mm: 34, ss: 56, ff: 78, drop_frame: false };
    assert_eq!(parts.to_timecode(), "12:34:56:78");

    let parts = TimecodeParts { hh: 1, mm: 2, ss: 3, ff: 45, drop_frame: true };
    assert_eq!(parts.to_timecode(), "01:02:03;45");
}

#[test]
fn test_write_timecode_wide_frame_field() {
    // The frame field is padded to two places but may hold more digits.
    let parts = TimecodeParts { hh: 1, mm: 2, ss: 3, ff: 255, drop_frame: false };
    assert_eq!(parts.to_timecode(), "01:02:03:255");

    let parts = TimecodeParts { hh: 1, mm: 2, ss: 3, ff: 4, drop_frame: false };
    assert_eq!(parts.to_timecode(), "01:02:03:04");
}

#[test]
fn test_write_timestamp_parts() {
    let parts = TimecodeParts { hh: 12, mm: 34, ss: 56, ff: 789, drop_frame: false };
    assert_eq!(parts.to_timestamp(), "12:34:56.789");

    let parts = TimecodeParts { hh: 0, mm: 0, ss: 0, ff: 7, drop_frame: false };
    assert_eq!(parts.to_timestamp(), "00:00:00.007");
}

#[test]
fn test_timecode_round_trip() {
    let timebase = Timebase { fps: 60, drop_frame: false };
    let time = Time::from_timecode("01:02:03:30", &timebase).unwrap();
    assert_eq!(time.to_millisecond(), 3723500);
    assert_eq!(time.to_timecode(&timebase), "01:02:03:30");
}

#[test]
fn test_timebase_conversions() {
    let timebase = Timebase::new(24);
    assert_eq!(timebase.milliseconds_from_frames(100), 4167);
    assert_eq!(timebase.frames_from_milliseconds(4166), 100);
    assert_eq!(timebase.drop_frame, false);

    let default_timebase = Timebase::default();
    assert_eq!(default_timebase.fps, 24);
}

#[test]
fn test_timecode_error_message() {
    let err = TimecodeParts::from_timecode("wrong").unwrap_err();
    assert_eq!(err.message(), "Invalid Timecode Format");
}
