use booth2rss::utils::{get_value_between_snippets, get_value_between_snippets_offset, index_of, sanitize_xml};

#[test]
fn test_index_of() {
    let input = "This is a short test string".to_string();
    let expected: usize = 16;

    let result = index_of(&input, "test", 0).unwrap();

    assert_eq!(result, expected);
}

#[test]
fn test_index_of_slice() {
    let input = "This is a test function to test the functionality of the index_of function".to_string();
    let expected: usize = 66;

    let result = index_of(&input, "function", 49).unwrap();

    assert_eq!(result, expected);
}

#[test]
fn test_get_value_between_snippets() {
    let input = "This is a test function to test the functionality of the get_value_between_snippets function".to_string();
    let expected = "get_value_between_snippets".to_string();

    let result = get_value_between_snippets(&input, "of the ", " function").unwrap();

    assert_eq!(result, expected);
}

#[test]
fn test_get_value_between_snippets_unicode() {
    let input = "This is a testäüö 🎖️function to test the functionality of the get_value_between_snippets function🥍".to_string();
    let expected = "get_value_between_snippets".to_string();

    let result = get_value_between_snippets(&input, "of the ", " function").unwrap();

    assert_eq!(result, expected);
}

#[test]
fn test_get_value_between_snippets_offset() {
    let input = "This is a short test of the get_value_between_snippets_offset function and its parameters, specifically a test of the offset parameter".to_string();
    let expected_result = "offset".to_string();
    let expected_offset = 124;

    let (result, offset) = get_value_between_snippets_offset(&input, "of the ", " parameter", 91);

    assert_eq!(result.unwrap(), expected_result);
    assert_eq!(offset, expected_offset);
}

#[test]
fn index_of_counts_characters_not_bytes() {
    let input = "äöü test".to_string();
    assert_eq!(index_of(&input, "test", 0), Some(4));
    assert_eq!(index_of(&input, "test", 2), Some(4));
}

#[test]
fn index_of_missing_and_past_end() {
    let input = "abc".to_string();
    assert_eq!(index_of(&input, "x", 0), None);
    assert_eq!(index_of(&input, "a", 1), None);
    assert_eq!(index_of(&input, "c", 10), None);
    assert_eq!(index_of(&input, "", 3), None);
}

#[test]
fn index_of_scan_restarts_without_recheck() {
    // The scan resets on a mismatch without looking at the mismatching
    // character again, so this overlapping occurrence is missed.
    let input = "aab".to_string();
    assert_eq!(index_of(&input, "ab", 0), None);
    let input = "xaab ab".to_string();
    assert_eq!(index_of(&input, "ab", 0), Some(5));
}

#[test]
fn found_match_is_real_occurrence() {
    let input = "one two three two".to_string();
    let i = index_of(&input, "two", 5).unwrap();
    assert_eq!(i, 14);
    let chars: Vec<char> = input.chars().collect();
    let found: String = chars[i..i + 3].iter().collect();
    assert_eq!(found, "two");
}

#[test]
fn snippet_offset_unchanged_when_missing() {
    let input = "start only".to_string();
    let (result, offset) = get_value_between_snippets_offset(&input, "start", "end", 0);
    assert_eq!(result, None);
    assert_eq!(offset, 0);
    let (result, offset) = get_value_between_snippets_offset(&input, "nothing", "end", 3);
    assert_eq!(result, None);
    assert_eq!(offset, 3);
}

#[test]
fn snippet_value_start_counts_marker_bytes() {
    // The value begins the marker's length in bytes after the marker: with a
    // two-byte marker character that is one character later.
    let input = "xä=12;".to_string();
    let result = get_value_between_snippets(&input, "ä", ";").unwrap();
    assert_eq!(result, "12");
    let input = "ab<v>cd</v>".to_string();
    assert_eq!(get_value_between_snippets(&input, "<v>", "</v>").unwrap(), "cd");
}

#[test]
fn sanitize_xml_escapes_reserved_characters() {
    let input = "a<b>&\"c'".to_string();
    assert_eq!(sanitize_xml(&input), "a&lt;b&gt;&amp;&quot;c&apos;");
    assert_eq!(sanitize_xml(&"plain".to_string()), "plain");
}
