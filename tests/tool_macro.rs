use tiny_loop::tool::{describe_tool, to_pascal_case, ClosureTool, Fetch};

fn lines(ls: &[&str]) -> Vec<String> {
    ls.iter().map(|l| l.to_string()).collect()
}

#[test]
fn test_custom_tool_name() {
    let sig = describe_tool("my_function", Some("custom_tool".to_string()), &Vec::new());
    assert_eq!(sig.args_name, "CustomToolArgs");
    assert_eq!(sig.tool_name, "custom_tool");
}

#[test]
fn test_custom_method_names() {
    let one = describe_tool("method_one", Some("custom_method_one".to_string()), &Vec::new());
    let two = describe_tool("method_two", Some("custom_method_two".to_string()), &Vec::new());
    assert_eq!(one.tool_name, "custom_method_one");
    assert_eq!(two.tool_name, "custom_method_two");
    assert_eq!(one.args_name, "CustomMethodOneArgs");
    assert_eq!(two.args_name, "CustomMethodTwoArgs");
}

#[test]
fn test_multi_line_doc_comment() {
    let sig = describe_tool(
        "multi_line_doc",
        None,
        &lines(&[
            " First line of documentation",
            " Second line of documentation",
            " Third line of documentation",
        ]),
    );
    let desc = sig.description;
    assert!(
        desc.contains("First line of documentation"),
        "Description should contain first line"
    );
    assert!(
        desc.contains("Second line of documentation"),
        "Description should contain second line"
    );
    assert!(
        desc.contains("Third line of documentation"),
        "Description should contain third line"
    );
    assert_eq!(sig.args_name, "MultiLineDocArgs");
}

#[test]
fn test_multi_line_doc_comment_method() {
    let sig = describe_tool(
        "method_with_doc",
        None,
        &lines(&[
            " First line of method doc",
            " Second line of method doc",
            " Third line of method doc",
        ]),
    );
    let desc = sig.description;
    assert!(
        desc.contains("First line of method doc"),
        "Description should contain first line"
    );
    assert!(
        desc.contains("Second line of method doc"),
        "Description should contain second line"
    );
    assert!(
        desc.contains("Third line of method doc"),
        "Description should contain third line"
    );
    assert_eq!(sig.tool_name, "method_with_doc");
}

#[test]
fn doc_lines_are_trimmed_and_joined() {
    let sig = describe_tool("f", None, &lines(&["  Fetch a URL. ", " Returns text."]));
    assert_eq!(sig.description, "Fetch a URL.\nReturns text.");
    assert_eq!(describe_tool("f", None, &Vec::new()).description, "");
}

#[test]
fn pascal_case_of_snake_names() {
    assert_eq!(to_pascal_case("get_weather"), "GetWeather");
    assert_eq!(to_pascal_case("fetch"), "Fetch");
    assert_eq!(to_pascal_case("_a__b_"), "AB");
    assert_eq!(to_pascal_case(""), "");
    assert_eq!(to_pascal_case("straße_x"), "StraßeX");
    assert_eq!(to_pascal_case("ßa"), "SSa");
}

#[test]
fn closure_tool_keeps_its_closure() {
    let t = ClosureTool::new(|s: String| s.len());
    assert_eq!((t.func)("abc".to_string()), 3);
    let b = ClosureTool::boxed(|s: String| s + "!");
    assert_eq!((b.func)("hi".to_string()), "hi!");
}

#[test]
fn fetch_outputs() {
    assert_eq!(Fetch::NAME, "fetch");
    assert_eq!(Fetch::fetch_error_output("timeout"), "Error fetching URL: timeout");
    assert_eq!(Fetch::read_error_output("eof"), "Error reading response: eof");
    let md = Fetch::page_output("<h1>Title</h1><p>Body</p>");
    assert!(md.contains("Title"));
    assert!(md.contains("Body"));
    assert!(!md.contains("<h1>"));
}
