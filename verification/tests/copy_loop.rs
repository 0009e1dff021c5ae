use headj::copy_loop::copy_loop;
use headj::copy_selector::CopySelector;
use headj::key_path::KeyPath;

fn run_run_headj(
    json_input_document: &str,
    key_path_str: &str,
    count: usize,
    skip: usize,
    no_context: bool,
) -> Result<String, String> {
    let key_path = KeyPath::from_kp_str(key_path_str).map_err(|e| e.message())?;
    let mut copy_selector = CopySelector::new(key_path, count, skip, no_context);
    let mut output_writer: Vec<u8> = Vec::new();
    copy_loop(
        json_input_document.as_bytes(),
        &mut output_writer,
        &mut copy_selector,
    )
    .map_err(|e| e.message())?;
    String::from_utf8(output_writer).map_err(|e| e.to_string())
}

#[test]
fn test_list_no_args() {
    let result = run_run_headj("[1,2,3,4,5]", "", 100, 0, true).unwrap();
    assert_eq!("[1,2,3,4,5]", result.as_str());
}

#[test]
fn test_no_input() {
    let e = run_run_headj("", "", 100, 0, true).unwrap_err();
    assert_eq!("unexpected end of file", e.as_str());
}

#[test]
fn test_list_1_count() {
    let result = run_run_headj("[1,2,3,4,5]", "", 1, 0, true).unwrap();
    assert_eq!("[1]", result.as_str());
}

#[test]
fn test_list_1_count_2_skip() {
    let result = run_run_headj("[1,2,3,4,5]", "", 1, 2, true).unwrap();
    assert_eq!("[3]", result.as_str());
}

#[test]
fn test_list_2_count_2_skip() {
    let result = run_run_headj("[1,2,3,4,5]", "", 2, 2, true).unwrap();
    assert_eq!("[3,4]", result.as_str());
}

#[test]
fn test_object_1_key_context() {
    let result = run_run_headj("{\"foo\":[1,2,3,4,5]}", "foo", 100, 0, false).unwrap();
    assert_eq!("{\"foo\":[1,2,3,4,5]}", result.as_str())
}

#[test]
fn test_object_1_key() {
    let result = run_run_headj("{\"foo\":[1,2,3,4,5]}", "foo", 100, 0, true).unwrap();
    assert_eq!("[1,2,3,4,5]", result.as_str());
}

#[test]
fn test_complex_elements_key_no_context() {
    let result = run_run_headj(
        "{\"foo\":[{\"a\":[1]},{\"b\":[2]},{\"c\":[3]},{\"d\":[4]},{\"e\":[5]}]}",
        "foo",
        2,
        2,
        true,
    )
    .unwrap();
    assert_eq!("[{\"c\":[3]},{\"d\":[4]}]", result.as_str());
}

#[test]
fn test_complex_elements_key() {
    let result = run_run_headj(
        "{\"foo\":[{\"a\":[1]},{\"b\":[2]},{\"c\":[3]},{\"d\":[4]},{\"e\":[5]}]}",
        "foo",
        2,
        2,
        false,
    )
    .unwrap();
    assert_eq!("{\"foo\":[{\"c\":[3]},{\"d\":[4]}]}", result.as_str());
}

#[test]
fn test_complex_elements() {
    let result = run_run_headj(
        "[{\"a\":[1]},{\"b\":[2]},{\"c\":[3]},{\"d\":[4]},{\"e\":[5]}]",
        "",
        2,
        2,
        false,
    )
    .unwrap();
    assert_eq!("[{\"c\":[3]},{\"d\":[4]}]", result.as_str());
}

#[test]
fn test_object_2_keys_2_count_2_skip_context_format() {
    let result = run_run_headj("{\"foo\":{\"bar\":[1,2,3,4,5]}}", "foo.bar", 2, 2, false).unwrap();
    assert_eq!("{\"foo\":{\"bar\":[3,4]}}", result.as_str())
}

#[test]
fn test_object_2_keys_2_count_2_skip_context() {
    let result = run_run_headj("{\"foo\":{\"bar\":[1,2,3,4,5]}}", "foo.bar", 2, 2, false).unwrap();
    assert_eq!("{\"foo\":{\"bar\":[3,4]}}", result.as_str());
}

#[test]
fn test_object_2_keys_2_count_2_skip() {
    let result = run_run_headj("{\"foo\":{\"bar\":[1,2,3,4,5]}}", "foo.bar", 2, 2, true).unwrap();
    assert_eq!("[3,4]", result.as_str());
}

#[test]
fn test_object_1_key_2_count_2_skip_context() {
    let result = run_run_headj("{\"foo\":[1,2,3,4,5]}", "foo", 2, 2, false).unwrap();
    assert_eq!("{\"foo\":[3,4]}", result.as_str());
}

#[test]
fn test_object_1_key_2_count_2_skip() {
    let result = run_run_headj("{\"foo\":[1,2,3,4,5]}", "foo", 2, 2, true).unwrap();
    assert_eq!("[3,4]", result.as_str());
}

#[test]
fn test_no_input_with_key() {
    let e = run_run_headj("", "foo", 100, 0, false).unwrap_err();
    assert_eq!("unexpected end of file", e.as_str());
}

#[test]
fn test_incorect_first_key() {
    let e = run_run_headj(
        "\n                {\"foo\":{\n                \"bar\":[1,2,3,4,5]}\n                }\n",
        "fooo.bar",
        2,
        2,
        false,
    )
    .unwrap_err();
    assert_eq!("Did not complete JSON copy", e.as_str());
}

#[test]
fn test_incorrect_key() {
    let e = run_run_headj("{\"bar\":[1,2,3,4,5]}", "foo", 2, 2, false).unwrap_err();
    assert_eq!("Did not complete JSON copy", e.as_str());
}

#[test]
fn test_array_with_key() {
    let e = run_run_headj("[1,2,3,4,5]", "foo", 100, 0, false).unwrap_err();
    assert_eq!("Did not complete JSON copy", e.as_str());
}

#[test]
fn test_incorrect_second_key() {
    let e = run_run_headj("{\"foo\":{\"bar\":[1,2,3,4,5]}}", "foo.barz", 2, 2, false).unwrap_err();
    assert_eq!("Did not complete JSON copy", e.as_str());
}

#[test]
fn test_incorrect_first_key_compact() {
    let e = run_run_headj("{\"foo\":{\"bar\":[1,2,3,4,5]}}", "fooo.bar", 2, 2, false).unwrap_err();
    assert_eq!("Did not complete JSON copy", e.as_str());
}
