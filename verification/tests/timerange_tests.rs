use rusty_studio::base::Time;
use rusty_studio::timeline::TimeRange;
use rusty_studio::timeline::TimeRangeEditableTrait;
use rusty_studio::timeline::TimeRangeTrait;

#[test]
fn test_whole_timerange() {
    let ranges = vec![
        TimeRange::from_millisecond(10, 20),
        TimeRange::from_millisecond(20, 30),
        TimeRange::from_millisecond(15, 50),
    ];
    let whole_range = TimeRange::whole_timerange(&ranges);
    assert_eq!(whole_range.start().to_millisecond(), 10);
    assert_eq!(whole_range.end().to_millisecond(), 65);
    assert_eq!(whole_range.duration().to_millisecond(), 55);
}

#[test]
fn test_range_end_and_contains() {
    let range = TimeRange::from_millisecond(10, 30);
    assert_eq!(range.end(), Time::new(40));
    // Containment is inclusive at both ends.
    assert!(range.contains(&Time::new(10)));
    assert!(range.contains(&Time::new(25)));
    assert!(range.contains(&Time::new(40)));
    assert!(!range.contains(&Time::new(41)));
    assert!(!range.contains(&Time::new(9)));
}

#[test]
fn test_range_overlaps() {
    let range = TimeRange::from_millisecond(10, 30);
    assert!(range.overlaps(&TimeRange::from_millisecond(20, 5)));
    assert!(range.overlaps(&TimeRange::from_millisecond(0, 15)));
    // Touching ranges count as overlapping.
    assert!(range.overlaps(&TimeRange::from_millisecond(40, 10)));
    assert!(!range.overlaps(&TimeRange::from_millisecond(41, 10)));
    assert!(!range.overlaps(&TimeRange::from_millisecond(0, 9)));
}

#[test]
fn test_range_editing() {
    let mut range = TimeRange::new(Time::new(10), Time::new(30));
    range.set_start(Time::new(20));
    assert_eq!(range.start(), Time::new(20));
    assert_eq!(range.duration(), Time::new(30));
    range.set_duration(Time::new(5));
    assert_eq!(range.duration(), Time::new(5));
    range.set_end(Time::new(100));
    assert_eq!(range.duration(), Time::new(80));
    range.shift_time(Time::new(-20));
    assert_eq!(range.start(), Time::new(0));
    assert_eq!(range.duration(), Time::new(80));
}

#[test]
fn test_from_timerange() {
    let range = TimeRange::from_millisecond(10, 30);
    let copy = TimeRange::from_timerange(&range);
    assert_eq!(copy.start(), Time::new(10));
    assert_eq!(copy.duration(), Time::new(30));
}
