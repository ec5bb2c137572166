use rusty_studio::base::MetadataSupport;
use rusty_studio::base::Time;
use rusty_studio::base::Value;
use rusty_studio::timeline::Item;
use rusty_studio::timeline::TimeRange;
use rusty_studio::timeline::TimeRangeTrait;
use rusty_studio::timeline::Timeline;
use rusty_studio::timeline::Track;

fn item_ms(start: i128, duration: i128) -> Item {
    Item::from_timerange(TimeRange::from_millisecond(start, duration))
}

#[test]
fn test_timeline_starts_with_one_track() {
    let timeline = Timeline::new();
    assert_eq!(timeline.tracks_count(), 1);
    assert!(timeline.get_track(0).unwrap().is_empty());
}

#[test]
fn test_add_item_overflows_to_new_track() {
    // One empty track; [0,10) lands there; the overlapping [5,15) opens a
    // second track.
    let mut timeline = Timeline::new();
    timeline.add_item(item_ms(0, 10));
    assert_eq!(timeline.tracks_count(), 1);
    timeline.add_item(item_ms(5, 10));
    assert_eq!(timeline.tracks_count(), 2);
    let track0 = timeline.get_track(0).unwrap();
    assert_eq!(track0.len(), 1);
    assert_eq!(track0.get(0).unwrap().start(), Time::new(0));
    let track1 = timeline.get_track(1).unwrap();
    assert_eq!(track1.len(), 1);
    assert_eq!(track1.get(0).unwrap().start(), Time::new(5));
}

#[test]
fn test_add_item_first_fit() {
    // Placement is first fit: a segment goes to the lowest-indexed track
    // that takes it, not the best-fitting one.
    let mut timeline = Timeline::new();
    timeline.add_item(item_ms(0, 10));
    timeline.add_item(item_ms(50, 100));
    timeline.add_item(item_ms(20, 10));
    assert_eq!(timeline.tracks_count(), 1);

    timeline.add_item(item_ms(5, 20));
    assert_eq!(timeline.tracks_count(), 2);
    timeline.add_item(item_ms(45, 30));
    assert_eq!(timeline.tracks_count(), 2);
    timeline.add_item(item_ms(20, 10));
    assert_eq!(timeline.tracks_count(), 3);

    let track1 = timeline.get_track(1).unwrap();
    assert_eq!(track1.get(0).unwrap().start(), Time::new(5));
    assert_eq!(track1.get(1).unwrap().start(), Time::new(45));
    let track2 = timeline.get_track(2).unwrap();
    assert_eq!(track2.get(0).unwrap().start(), Time::new(20));
}

#[test]
fn test_take_track_leaves_fresh_track() {
    // Taking the only track hands it out and leaves one fresh empty track.
    let mut timeline = Timeline::new();
    timeline.add_item(item_ms(0, 10));
    let taken = timeline.take_track(0).unwrap();
    assert_eq!(taken.len(), 1);
    assert_eq!(timeline.tracks_count(), 1);
    assert!(timeline.get_track(0).unwrap().is_empty());
}

#[test]
fn test_take_track_out_of_range() {
    let mut timeline = Timeline::new();
    assert!(timeline.take_track(3).is_none());
    assert_eq!(timeline.tracks_count(), 1);
}

#[test]
fn test_clear_keeps_one_track() {
    let mut timeline = Timeline::new();
    timeline.add_item(item_ms(0, 10));
    timeline.add_item(item_ms(5, 10));
    assert_eq!(timeline.tracks_count(), 2);
    timeline.clear();
    assert_eq!(timeline.tracks_count(), 1);
    assert!(timeline.get_track(0).unwrap().is_empty());
}

#[test]
fn test_push_track_replaces_sentinel() {
    // Pushing onto a fresh timeline discards the empty starting track.
    let mut timeline = Timeline::new();
    let mut track = Track::new();
    track.force_push_item(item_ms(0, 10));
    timeline.push_track(track);
    assert_eq!(timeline.tracks_count(), 1);
    assert_eq!(timeline.get_track(0).unwrap().len(), 1);

    // Once the timeline holds content, pushing appends.
    timeline.push_track(Track::new());
    assert_eq!(timeline.tracks_count(), 2);
}

#[test]
fn test_timeline_metadata() {
    let mut timeline = Timeline::new();
    assert!(timeline.get_metadata("note").is_none());
    timeline.set_metadata("note", Value::Integer(7));
    assert_eq!(timeline.get_metadata("note"), Some(Value::Integer(7)));
    timeline.erase_metadata("note");
    assert!(timeline.get_metadata("note").is_none());
}

#[test]
fn test_iter_tracks() {
    let mut timeline = Timeline::new();
    timeline.add_item(item_ms(0, 10));
    timeline.add_item(item_ms(5, 10));
    let lengths: Vec<usize> = timeline.iter_tracks().iter().map(|t| t.len()).collect();
    assert_eq!(lengths, vec![1, 1]);
}
