use rusty_studio::base::MetadataSupport;
use rusty_studio::base::Time;
use rusty_studio::base::Value;
use rusty_studio::timeline::ContentSupport;
use rusty_studio::timeline::Item;
use rusty_studio::timeline::TimeRange;
use rusty_studio::timeline::TimeRangeTrait;
use rusty_studio::timeline::Track;

fn item_ms(start: i128, duration: i128) -> Item {
    Item::from_timerange(TimeRange::from_millisecond(start, duration))
}

#[test]
fn test_try_add_keeps_order() {
    // Inserting [0,10), [50,150), [20,30) safely succeeds each time and the
    // track iterates in time order.
    let mut track = Track::new();
    assert!(track.try_add_item(&item_ms(0, 10)).is_ok());
    assert!(track.try_add_item(&item_ms(50, 100)).is_ok());
    assert!(track.try_add_item(&item_ms(20, 10)).is_ok());
    assert_eq!(track.len(), 3);
    let starts: Vec<i128> = track
        .iter_items()
        .iter()
        .map(|it| it.start().to_millisecond())
        .collect();
    assert_eq!(starts, vec![0, 20, 50]);
    let ends: Vec<i128> = track
        .iter_items()
        .iter()
        .map(|it| it.end().to_millisecond())
        .collect();
    assert_eq!(ends, vec![10, 30, 150]);
}

#[test]
fn test_try_add_rejects_overlap() {
    // A track holding [0,10) and [30,40) rejects [35,45) and stays as it
    // was.
    let mut track = Track::new();
    assert!(track.try_add_item(&item_ms(0, 10)).is_ok());
    assert!(track.try_add_item(&item_ms(30, 10)).is_ok());
    let rejected = track.try_add_item(&item_ms(35, 10));
    assert!(rejected.is_err());
    assert_eq!(track.len(), 2);
    assert_eq!(track.get(0).unwrap().start(), Time::new(0));
    assert_eq!(track.get(1).unwrap().start(), Time::new(30));
}

#[test]
fn test_try_add_rejects_touching() {
    // The overlap test is inclusive: a segment that exactly touches an
    // existing one is rejected.
    let mut track = Track::new();
    assert!(track.try_add_item(&item_ms(10, 10)).is_ok());
    assert!(track.try_add_item(&item_ms(20, 5)).is_err());
    assert!(track.try_add_item(&item_ms(0, 10)).is_err());
    assert!(track.try_add_item(&item_ms(21, 5)).is_ok());
}

#[test]
fn test_find_insert_point() {
    let mut track = Track::default();
    let item = item_ms(35, 30);
    assert_eq!(track.find_insert_point(&item), 0);

    track.force_push_item(item_ms(5, 5));
    track.force_push_item(item_ms(30, 5));
    track.force_push_item(item_ms(100, 5));
    track.force_push_item(item_ms(200, 5));

    assert_eq!(track.find_insert_point(&item), 2);
}

#[test]
fn test_check_insert_point() {
    let mut track = Track::default();
    let item1 = item_ms(35, 30);
    let item2 = item_ms(45, 10);

    track.force_push_item(item_ms(5, 5));
    track.force_push_item(item_ms(30, 10));
    track.force_push_item(item_ms(100, 10));

    assert_eq!(track.check_insert_point(2, &item1), false);
    assert_eq!(track.check_insert_point(2, &item2), true);
}

#[test]
fn test_force_add_item() {
    let mut track = Track::default();
    track.force_push_item(item_ms(5, 5));
    track.force_push_item(item_ms(30, 5));
    track.force_push_item(item_ms(100, 5));
    let inserted_index = track.force_add_item(item_ms(35, 30));
    assert_eq!(inserted_index, 2);
    assert_eq!(track.len(), 4);
}

#[test]
fn test_try_add_item_results() {
    let mut track = Track::default();
    track.force_push_item(item_ms(5, 5));
    track.force_push_item(item_ms(30, 5));
    track.force_push_item(item_ms(100, 5));

    let try1 = track.try_add_item(&item_ms(40, 30));
    assert_eq!(try1, Ok(2));
    let try2 = track.try_add_item(&item_ms(30, 10));
    assert_eq!(try2, Err(1));
}

#[test]
fn test_force_insert_item_clamps() {
    let mut track = Track::new();
    // Into an empty track everything lands at the front.
    assert_eq!(track.force_insert_item(7, item_ms(10, 5)), Err(0));
    // An index beyond the end is clamped to the end.
    assert_eq!(track.force_insert_item(9, item_ms(20, 5)), Err(1));
    // An index inside the track is used as given.
    assert_eq!(track.force_insert_item(1, item_ms(15, 2)), Ok(1));
    assert_eq!(track.len(), 3);
}

#[test]
fn test_force_sort_items() {
    let mut track = Track::new();
    track.force_push_item(item_ms(100, 5));
    track.force_push_item(item_ms(5, 20));
    track.force_push_item(item_ms(30, 5));
    track.force_sort_items();
    let starts: Vec<i128> = track
        .iter_items()
        .iter()
        .map(|it| it.start().to_millisecond())
        .collect();
    assert_eq!(starts, vec![5, 30, 100]);
    assert_eq!(track.duration(), Time::new(105));
}

#[test]
fn test_take_at() {
    let mut track = Track::new();
    assert!(track.try_add_item(&item_ms(0, 10)).is_ok());
    assert!(track.try_add_item(&item_ms(20, 10)).is_ok());
    let taken = track.take_at(0).unwrap();
    assert_eq!(taken.start(), Time::new(0));
    assert_eq!(track.len(), 1);
    assert!(track.take_at(5).is_err());
    assert_eq!(track.len(), 1);
}

#[test]
fn test_duration_tracks_contents() {
    // The reported extent follows every mutation, whether it comes from the
    // cache or from a scan.
    let mut track = Track::new();
    assert_eq!(track.duration(), Time::new(0));
    assert!(track.try_add_item(&item_ms(0, 10)).is_ok());
    assert_eq!(track.duration(), Time::new(10));
    assert!(track.try_add_item(&item_ms(50, 100)).is_ok());
    assert_eq!(track.duration(), Time::new(150));
    assert!(track.try_add_item(&item_ms(20, 10)).is_ok());
    assert_eq!(track.duration(), Time::new(150));
    let taken = track.take_at(2).unwrap();
    assert_eq!(taken.end(), Time::new(150));
    assert_eq!(track.duration(), Time::new(30));
    assert_eq!(track.start(), Time::new(0));
}

#[test]
fn test_track_get_out_of_range() {
    let track = Track::new();
    assert!(track.get(0).is_none());
    assert!(track.is_empty());
    assert_eq!(track.len(), 0);
}

#[test]
fn test_force_sort_is_stable() {
    // Two segments share a start time; sorting keeps their relative order.
    let mut track = Track::new();
    let mut first = item_ms(50, 5);
    first.set_content(Value::Integer(1));
    let mut second = item_ms(50, 5);
    second.set_content(Value::Integer(2));
    track.force_push_item(item_ms(90, 5));
    track.force_push_item(first);
    track.force_push_item(item_ms(10, 5));
    track.force_push_item(second);
    track.force_sort_items();
    let starts: Vec<i128> = track
        .iter_items()
        .iter()
        .map(|it| it.start().to_millisecond())
        .collect();
    assert_eq!(starts, vec![10, 50, 50, 90]);
    assert_eq!(track.get(1).unwrap().get_content(), Some(Value::Integer(1)));
    assert_eq!(track.get(2).unwrap().get_content(), Some(Value::Integer(2)));
}

#[test]
fn test_track_clone() {
    let mut track = Track::new();
    assert!(track.try_add_item(&item_ms(0, 10)).is_ok());
    let copy = track.clone();
    assert_eq!(copy.len(), 1);
    assert_eq!(copy.get(0).unwrap().start(), Time::new(0));
    assert_eq!(copy.duration(), Time::new(10));
}

#[test]
fn test_track_metadata() {
    let mut track = Track::new();
    track.set_metadata("name", Value::Text(String::from("voice")));
    assert_eq!(
        track.get_metadata("name"),
        Some(Value::Text(String::from("voice")))
    );
    track.erase_metadata("name");
    assert!(track.get_metadata("name").is_none());
    track.set_metadata("muted", Value::Flag(true));
    track.clear_metadata();
    assert!(track.get_metadata("muted").is_none());
}
