use headj::copy_loop::copy_loop;
use headj::copy_selector::{CopySelector, JsonFileState};
use headj::error::CopyError;
use headj::key_path::{KeyPath, OwnedJsonEvent};

fn run(doc: &str, path: &str, count: usize, skip: usize, no_context: bool) -> Result<String, String> {
    let key_path = KeyPath::from_kp_str(path).map_err(|e| e.message())?;
    let mut selector = CopySelector::new(key_path, count, skip, no_context);
    let mut out: Vec<u8> = Vec::new();
    copy_loop(doc.as_bytes(), &mut out, &mut selector).map_err(|e| e.message())?;
    String::from_utf8(out).map_err(|e| e.to_string())
}

#[test]
fn test_zero_count_zero_skip_is_empty_array() {
    let result = run("[1,2,3,4,5]", "", 0, 0, true).unwrap();
    assert_eq!("[]", result.as_str());
}

#[test]
fn test_zero_count_with_context_wraps_empty_array() {
    let result = run("{\"foo\":[1,2,3,4,5]}", "foo", 0, 0, false).unwrap();
    assert_eq!("{\"foo\":[]}", result.as_str());
}

#[test]
fn test_skip_past_end_is_empty_array() {
    let result = run("[1,2,3]", "", 100, 7, true).unwrap();
    assert_eq!("[]", result.as_str());
}

#[test]
fn test_rerun_is_byte_identical() {
    let doc = "{\"foo\":[{\"a\":[1]},2,3,4,5]}";
    let first = run(doc, "foo", 3, 1, false).unwrap();
    let second = run(doc, "foo", 3, 1, false).unwrap();
    assert_eq!(first, second);
}

#[test]
fn test_no_context_emits_no_keys_or_braces() {
    let result = run("{\"foo\":{\"bar\":[1,2]}}", "foo.bar", 100, 0, true).unwrap();
    assert_eq!("[1,2]", result.as_str());
}

#[test]
fn test_root_object_without_key_is_shape_error() {
    let e = run("{\"a\":1}", "", 100, 0, false).unwrap_err();
    assert_eq!("Expecting Json array, found StartObject", e.as_str());
}

#[test]
fn test_root_scalar_shape_error_names_the_token() {
    let e = run("7", "", 100, 0, false).unwrap_err();
    assert_eq!("Expecting Json array, found Number(7)", e.as_str());
}

#[test]
fn test_select_rejects_non_array_at_target() {
    let key_path = KeyPath::from_kp_str("").unwrap();
    let mut selector = CopySelector::new(key_path, 1, 0, false);
    assert!(!selector.is_complete());
    let verdict = selector.select(&OwnedJsonEvent::Number("7".to_string()));
    assert!(matches!(
        verdict,
        Err(CopyError::Shape(OwnedJsonEvent::Number(_)))
    ));
}

#[test]
fn test_select_windowing_decisions() {
    // [10, 20, 30] with skip=1, count=1: only the element at index 1 passes.
    let key_path = KeyPath::from_kp_str("").unwrap();
    let mut selector = CopySelector::new(key_path, 1, 1, true);
    assert_eq!(Ok(true), forward(&mut selector, OwnedJsonEvent::StartArray));
    assert_eq!(
        Ok(false),
        forward(&mut selector, OwnedJsonEvent::Number("10".to_string()))
    );
    assert_eq!(
        Ok(true),
        forward(&mut selector, OwnedJsonEvent::Number("20".to_string()))
    );
    assert_eq!(
        Ok(false),
        forward(&mut selector, OwnedJsonEvent::Number("30".to_string()))
    );
    assert!(!selector.is_complete());
    assert_eq!(Ok(true), forward(&mut selector, OwnedJsonEvent::EndArray));
    assert!(selector.is_complete());
}

fn forward(selector: &mut CopySelector, event: OwnedJsonEvent) -> Result<bool, String> {
    selector.select(&event).map_err(|e| e.message())
}

#[test]
fn test_file_state_key_cursor() {
    let key_path = KeyPath::from_kp_str("foo.bar").unwrap();
    let mut state = JsonFileState::new(key_path);
    assert!(!state.in_sub_element());
    assert_eq!(
        Some(OwnedJsonEvent::ObjectKey("foo".to_string())),
        state.current_key()
    );
    assert_eq!(
        Some(OwnedJsonEvent::ObjectKey("bar".to_string())),
        state.next_key()
    );
    assert_eq!(None, state.next_key());
    assert_eq!(None, state.current_key());
}

#[test]
fn test_error_messages() {
    assert_eq!(
        "Did not complete JSON copy",
        CopyError::Completion.message().as_str()
    );
    assert_eq!(
        "Expecting Json array, found EndObject",
        CopyError::Shape(OwnedJsonEvent::EndObject).message().as_str()
    );
    assert_eq!(
        "Expecting Json array, found ObjectKey(k)",
        CopyError::Shape(OwnedJsonEvent::ObjectKey("k".to_string()))
            .message()
            .as_str()
    );
    assert_eq!(
        "unexpected end of file",
        CopyError::Parse("unexpected end of file".to_string())
            .message()
            .as_str()
    );
    assert_eq!(
        "broken pipe",
        CopyError::Sink("broken pipe".to_string()).message().as_str()
    );
}

#[test]
fn test_root_array_window_keeps_context_flag_irrelevant() {
    // The root array's own brackets and window are the same with and without
    // context when the key path is empty.
    let with_context = run("[1,2,3,4,5]", "", 2, 1, false).unwrap();
    let without_context = run("[1,2,3,4,5]", "", 2, 1, true).unwrap();
    assert_eq!("[2,3]", with_context.as_str());
    assert_eq!(with_context, without_context);
}

#[test]
fn test_trailing_dot_descends_into_empty_key() {
    // "foo." names two segments, the second the empty string.
    let result = run("{\"foo\":{\"\":[1,2,3]}}", "foo.", 2, 0, true).unwrap();
    assert_eq!("[1,2]", result.as_str());
}

#[test]
fn test_nested_composites_count_once() {
    let result = run("[{\"a\":[1]},{\"b\":[2]},{\"c\":[3]}]", "", 1, 1, true).unwrap();
    assert_eq!("[{\"b\":[2]}]", result.as_str());
}
