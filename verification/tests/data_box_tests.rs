use rusty_studio::base::DataBox;
use rusty_studio::base::Value;

#[test]
fn test_data_box_set_and_get() {
    let mut data_box = DataBox::default();
    data_box.set("key", Value::Integer(123));
    assert_eq!(data_box.get("key"), Some(Value::Integer(123)));

    data_box.set("key2", Value::Text(String::from("super!")));
    assert_eq!(data_box.get("key2"), Some(Value::Text(String::from("super!"))));

    assert!(data_box.get("key3").is_none());

    data_box.erase("key");
    assert!(data_box.get("key").is_none());

    data_box.clear();
    assert!(data_box.get("key2").is_none());
}

#[test]
fn test_data_box_replaces_value() {
    let mut data_box = DataBox::new();
    data_box.set("key", Value::Integer(1));
    data_box.set("key", Value::Integer(2));
    assert_eq!(data_box.get("key"), Some(Value::Integer(2)));
}

#[test]
fn test_data_box_wrong_kind_reads_absent() {
    // A value of another kind reads as absent, not as an error.
    let mut data_box = DataBox::new();
    data_box.set("key", Value::Text(String::from("text")));
    assert!(data_box.get_integer("key").is_none());
    assert!(data_box.get_flag("key").is_none());
    assert_eq!(data_box.get_text("key"), Some(String::from("text")));

    data_box.set("key", Value::Flag(true));
    assert!(data_box.get_text("key").is_none());
    assert_eq!(data_box.get_flag("key"), Some(true));

    data_box.set("key", Value::Integer(-5));
    assert_eq!(data_box.get_integer("key"), Some(-5));

    assert!(data_box.get_integer("missing").is_none());
}

#[test]
fn test_data_box_clone_is_independent() {
    let mut data_box = DataBox::new();
    data_box.set("key", Value::Integer(1));
    let snapshot = data_box.clone();
    data_box.set("key", Value::Integer(2));
    assert_eq!(snapshot.get("key"), Some(Value::Integer(1)));
    assert_eq!(data_box.get("key"), Some(Value::Integer(2)));
}
