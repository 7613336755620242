use tiny_loop::text::truncate_text;
use tiny_loop::tool::read_output;

#[test]
fn test_no_truncation() {
    let result = truncate_text("hello".to_string(), 0, 5000);
    assert_eq!(result, "hello");
}

#[test]
fn test_truncation() {
    let content = "a".repeat(6000);
    let result = truncate_text(content, 0, 5000);
    assert_eq!(
        result,
        format!("{}\n\n---\ntruncated [5000/6000 chars]", "a".repeat(5000))
    );
}

#[test]
fn test_custom_range() {
    let result = truncate_text("0123456789".to_string(), 2, 5);
    assert_eq!(result, "234\n\n---\ntruncated [5/10 chars]");
}

#[test]
fn test_with_start() {
    let result = truncate_text("0123456789".to_string(), 5, 5000);
    assert_eq!(result, "56789");
}

#[test]
fn test_end_beyond_length() {
    let result = truncate_text("hello".to_string(), 0, 100);
    assert_eq!(result, "hello");
}

#[test]
fn truncation_counts_bytes_for_the_end() {
    // "é" takes two bytes: the end is clamped to the byte length, 4.
    let result = truncate_text("éab".to_string(), 0, 3);
    assert_eq!(result, "éab\n\n---\ntruncated [3/4 chars]");
}

#[test]
fn truncation_start_past_end_is_empty() {
    let result = truncate_text("hello".to_string(), 10, 3);
    assert_eq!(result, "\n\n---\ntruncated [3/5 chars]");
}

#[test]
fn truncation_of_empty_text() {
    assert_eq!(truncate_text(String::new(), 0, 0), "");
}

#[test]
fn read_output_defaults_and_errors() {
    assert_eq!(read_output(Ok("0123456789".to_string()), None, None), "0123456789");
    assert_eq!(read_output(Ok("0123456789".to_string()), Some(2), Some(4)), "23\n\n---\ntruncated [4/10 chars]");
    assert_eq!(read_output(Err("no such file".to_string()), None, None), "Error reading file: no such file");
}
