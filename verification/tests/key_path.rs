use headj::key_path::{KeyPath, OwnedJsonEvent};
use json_event_parser::JsonEvent;

#[test]
fn test_owned_json_event() {
    let e = OwnedJsonEvent::ObjectKey(String::from("key"));
    assert_eq!(e.as_json_event(), JsonEvent::ObjectKey("key"));
    let e = OwnedJsonEvent::String(String::from("string"));
    assert_eq!(e.as_json_event(), JsonEvent::String("string"));
    let e = OwnedJsonEvent::Number(String::from("27"));
    assert_eq!(e.as_json_event(), JsonEvent::Number("27"));
    let e = OwnedJsonEvent::Boolean(true);
    assert_eq!(e.as_json_event(), JsonEvent::Boolean(true));
    assert_eq!(OwnedJsonEvent::Null.as_json_event(), JsonEvent::Null);
    assert_eq!(OwnedJsonEvent::Eof.as_json_event(), JsonEvent::Eof);
    assert_eq!(
        OwnedJsonEvent::StartArray.as_json_event(),
        JsonEvent::StartArray
    );
    assert_eq!(
        OwnedJsonEvent::EndArray.as_json_event(),
        JsonEvent::EndArray
    );
    assert_eq!(
        OwnedJsonEvent::StartObject.as_json_event(),
        JsonEvent::StartObject
    );
    assert_eq!(
        OwnedJsonEvent::EndObject.as_json_event(),
        JsonEvent::EndObject
    );
}

#[test]
fn test_blank_key_path() {
    let key_path = KeyPath::from_kp_str("").unwrap();
    assert_eq!(0, key_path.len())
}

#[test]
fn test_one_element() {
    let key_path = KeyPath::from_kp_str("foo").unwrap();
    assert_eq!(1, key_path.len());
    let event_0 = OwnedJsonEvent::ObjectKey("foo".to_string());
    assert_eq!(event_0, *key_path.index(0));
}

#[test]
fn test_two_elements() {
    let key_path = KeyPath::from_kp_str("foo.bar").unwrap();
    assert_eq!(2, key_path.len());
    assert_eq!(
        OwnedJsonEvent::ObjectKey("foo".to_string()),
        *key_path.index(0)
    );
    assert_eq!(
        OwnedJsonEvent::ObjectKey("bar".to_string()),
        *key_path.index(1)
    );
}

#[test]
fn test_escaped_dot_is_literal() {
    let key_path = KeyPath::from_kp_str("a\\.b").unwrap();
    assert_eq!(1, key_path.len());
    assert_eq!(
        OwnedJsonEvent::ObjectKey("a.b".to_string()),
        *key_path.index(0)
    );
}

#[test]
fn test_escaped_backslash_is_literal() {
    let key_path = KeyPath::from_kp_str("a\\\\b").unwrap();
    assert_eq!(1, key_path.len());
    assert_eq!(
        OwnedJsonEvent::ObjectKey("a\\b".to_string()),
        *key_path.index(0)
    );
}

#[test]
fn test_leading_dot_gives_empty_segment() {
    let key_path = KeyPath::from_kp_str(".foo").unwrap();
    assert_eq!(2, key_path.len());
    assert_eq!(
        OwnedJsonEvent::ObjectKey("".to_string()),
        *key_path.index(0)
    );
    assert_eq!(
        OwnedJsonEvent::ObjectKey("foo".to_string()),
        *key_path.index(1)
    );
}

#[test]
fn test_trailing_dot_gives_empty_segment() {
    let key_path = KeyPath::from_kp_str("foo.").unwrap();
    assert_eq!(2, key_path.len());
    assert_eq!(
        OwnedJsonEvent::ObjectKey("foo".to_string()),
        *key_path.index(0)
    );
    assert_eq!(
        OwnedJsonEvent::ObjectKey("".to_string()),
        *key_path.index(1)
    );
}

#[test]
fn test_iterator_yields_all_segments() {
    let key_path = KeyPath::from_kp_str("one.two.three").unwrap();
    let segments = key_path.iterator();
    assert_eq!(3, segments.len());
    assert_eq!(OwnedJsonEvent::ObjectKey("one".to_string()), segments[0]);
    assert_eq!(OwnedJsonEvent::ObjectKey("two".to_string()), segments[1]);
    assert_eq!(OwnedJsonEvent::ObjectKey("three".to_string()), segments[2]);
}

#[test]
fn test_default_key_path_is_empty() {
    let key_path = KeyPath::default();
    assert_eq!(0, key_path.len());
}
