use rusty_studio::base::MetadataSupport;
use rusty_studio::base::Time;
use rusty_studio::base::Value;
use rusty_studio::timeline::ContentSupport;
use rusty_studio::timeline::Item;
use rusty_studio::timeline::TimeRange;
use rusty_studio::timeline::TimeRangeEditableTrait;
use rusty_studio::timeline::TimeRangeTrait;

#[test]
fn test_item_new() {
    let item = Item::default();
    assert_eq!(item.start(), Time::new(0));
    assert_eq!(item.duration(), Time::new(0));
    assert!(item.get_content().is_none());
    assert!(item.get_metadata("test_key").is_none());
}

#[test]
fn test_item_from_timerange() {
    let range = TimeRange::new(Time::new(10), Time::new(20));
    let item = Item::from_timerange(range);
    assert_eq!(item.start(), Time::new(10));
    assert_eq!(item.duration(), Time::new(20));
}

#[test]
fn test_item_metadata() {
    let mut item = Item::default();
    item.set_metadata("test_key", Value::Text("test_value".to_string()));
    assert_eq!(
        item.get_metadata("test_key"),
        Some(Value::Text("test_value".to_string()))
    );
}

#[test]
fn test_item_content() {
    let mut item = Item::default();
    item.set_content(Value::Text("test_content".to_string()));
    assert_eq!(
        item.get_content(),
        Some(Value::Text("test_content".to_string()))
    );
    item.clear_content();
    assert!(item.get_content().is_none());
}

#[test]
fn test_item_time_range_editable() {
    let mut item = Item::default();
    item.set_start(Time::new(5));
    item.set_duration(Time::new(15));
    assert_eq!(item.start(), Time::new(5));
    assert_eq!(item.duration(), Time::new(15));
}

#[test]
fn test_item_edit_end_and_shift() {
    let mut item = Item::default();
    item.set_start(Time::new(10));
    item.set_end(Time::new(40));
    assert_eq!(item.duration(), Time::new(30));
    item.shift_time(Time::new(5));
    assert_eq!(item.start(), Time::new(15));
    assert_eq!(item.duration(), Time::new(30));
    assert_eq!(item.end(), Time::new(45));
}

#[test]
fn test_item_contains_and_overlaps() {
    let item = Item::new(10, 30, Value::Flag(true));
    assert!(item.contains(&Time::new(10)));
    assert!(item.contains(&Time::new(40)));
    assert!(!item.contains(&Time::new(41)));
    let touching = Item::new(40, 10, Value::Flag(true));
    assert!(item.overlaps(&touching));
    let apart = Item::new(41, 10, Value::Flag(true));
    assert!(!item.overlaps(&apart));
}

#[test]
fn test_item_metadata_erase_and_clear() {
    let mut item = Item::default();
    item.set_metadata("a", Value::Integer(1));
    item.set_metadata("b", Value::Integer(2));
    item.erase_metadata("a");
    assert!(item.get_metadata("a").is_none());
    assert_eq!(item.get_metadata("b"), Some(Value::Integer(2)));
    item.clear_metadata();
    assert!(item.get_metadata("b").is_none());
}
