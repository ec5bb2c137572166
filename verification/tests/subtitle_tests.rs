use rusty_studio::base::Time;
use rusty_studio::subtitle::srt_loader::is_sequence_number_line;
use rusty_studio::subtitle::srt_loader::is_time_range_line;
use rusty_studio::subtitle::srt_loader::srt_line_step;
use rusty_studio::subtitle::SrtParseState;
use rusty_studio::subtitle::StaticSubtitle;
use rusty_studio::timeline::TimeRange;
use rusty_studio::timeline::TimeRangeTrait;

#[test]
fn test_sequence_number_line() {
    assert!(is_sequence_number_line("1"));
    assert!(is_sequence_number_line("042"));
    assert!(!is_sequence_number_line(""));
    assert!(!is_sequence_number_line("12a"));
    assert!(!is_sequence_number_line("12\n"));
}

#[test]
fn test_time_range_line() {
    assert!(is_time_range_line("00:00:01,000 --> 00:00:02,500"));
    assert!(is_time_range_line("00:00:01.000 --> 00:00:02.500 trailing"));
    assert!(!is_time_range_line("00:00:01,000 -> 00:00:02,500"));
    assert!(!is_time_range_line("hello"));
    assert!(!is_time_range_line(""));
}

#[test]
fn test_srt_step_through_block() {
    let state = SrtParseState::SequenceNumber;
    let (state, keep) = srt_line_step(state, "garbage");
    assert_eq!(state, SrtParseState::SequenceNumber);
    assert!(!keep);
    let (state, keep) = srt_line_step(state, "1");
    assert_eq!(state, SrtParseState::TimeRange);
    assert!(!keep);
    let (state, keep) = srt_line_step(state, "00:00:01,000 --> 00:00:02,500");
    assert_eq!(state, SrtParseState::Content);
    assert!(!keep);
    let (state, keep) = srt_line_step(state, "first line of text");
    assert_eq!(state, SrtParseState::Content);
    assert!(keep);
    let (state, keep) = srt_line_step(state, "");
    assert_eq!(state, SrtParseState::Done);
    assert!(!keep);
    let (state, keep) = srt_line_step(state, "ignored");
    assert_eq!(state, SrtParseState::Done);
    assert!(!keep);
}

#[test]
fn test_static_subtitle_fields() {
    let range = TimeRange::from_millisecond(1000, 1500);
    let subtitle = StaticSubtitle {
        start: range.start(),
        duration: range.duration(),
        content: String::from("hello"),
    };
    assert_eq!(subtitle.start, Time::new(1000));
    assert_eq!(subtitle.duration, Time::new(1500));
    assert_eq!(subtitle.content, "hello");
}
