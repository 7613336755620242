use tiny_loop::stream::{classify_line, Frame, StreamAssembler, StreamDelta, ToolCallDelta};
use tiny_loop::types::FinishReason;

fn text(s: &str) -> StreamDelta {
    StreamDelta { content: Some(s.to_string()), tool_calls: Vec::new(), finish_reason: None }
}

fn frag(index: Option<u64>, id: Option<&str>, name: Option<&str>, args: &str) -> ToolCallDelta {
    ToolCallDelta {
        index,
        id: id.map(|s| s.to_string()),
        call_type: id.map(|_| "function".to_string()),
        name: name.map(|s| s.to_string()),
        arguments: Some(args.to_string()),
    }
}

fn calls_delta(fs: Vec<ToolCallDelta>) -> StreamDelta {
    StreamDelta { content: None, tool_calls: fs, finish_reason: None }
}

#[test]
fn lines_are_classified() {
    assert!(matches!(classify_line("data: {\"a\":1}"), Frame::Data(p) if p == "{\"a\":1}"));
    assert!(matches!(classify_line("  data: [DONE] \r"), Frame::Done));
    assert!(matches!(classify_line(": keep-alive"), Frame::Ignored));
    assert!(matches!(classify_line(""), Frame::Ignored));
    assert!(matches!(classify_line("data:x"), Frame::Ignored));
    assert!(matches!(classify_line("data: "), Frame::Ignored));
    assert!(matches!(classify_line("data:  x"), Frame::Data(p) if p == " x"));
}

#[test]
fn frames_are_cut_at_line_feeds_across_chunks() {
    let mut a = StreamAssembler::new();
    a.push_bytes(b"data: {\"x\"");
    assert!(a.next_frame().is_none());
    a.push_bytes(b":1}\n\ndata: caf\xc3");
    assert!(matches!(a.next_frame(), Some(Frame::Data(p)) if p == "{\"x\":1}"));
    assert!(matches!(a.next_frame(), Some(Frame::Ignored)));
    assert!(a.next_frame().is_none());
    a.push_bytes(b"\xa9\ndata: [DONE]\ndata: late\n");
    assert!(matches!(a.next_frame(), Some(Frame::Data(p)) if p == "café"));
    assert!(matches!(a.next_frame(), Some(Frame::Done)));
    assert!(a.is_done());
    assert!(a.next_frame().is_none());
}

#[test]
fn streamed_text_is_reassembled_and_emitted_piecewise() {
    let mut a = StreamAssembler::new();
    let mut emitted = Vec::new();
    for piece in ["Hel", "", "lo, ", "world"] {
        if let Some(t) = a.apply(text(piece)) {
            emitted.push(t);
        }
    }
    a.apply(StreamDelta { content: None, tool_calls: Vec::new(), finish_reason: None });
    assert_eq!(emitted, vec!["Hel", "", "lo, ", "world"]);
    let r = a.finish();
    assert_eq!(r.message.content, "Hello, world");
    assert_eq!(emitted.concat(), r.message.content);
    assert!(r.message.tool_calls.is_none());
    assert!(matches!(r.finish_reason, FinishReason::Stop));
}

#[test]
fn split_arguments_match_the_unsplit_call() {
    let whole = "{\"city\":\"Paris\",\"unit\":\"C\"}";
    let mut one = StreamAssembler::new();
    one.apply(calls_delta(vec![frag(Some(0), Some("call_1"), Some("weather"), whole)]));
    let one = one.finish();

    let mut split = StreamAssembler::new();
    split.apply(calls_delta(vec![frag(Some(0), Some("call_1"), Some("weather"), "{\"ci")]));
    split.apply(calls_delta(vec![frag(Some(0), None, None, "ty\":\"Par")]));
    split.apply(calls_delta(vec![frag(Some(0), None, None, ""), frag(Some(0), None, None, "is\",\"unit\":\"C\"}")]));
    split.apply(StreamDelta {
        content: None,
        tool_calls: Vec::new(),
        finish_reason: Some(FinishReason::ToolCalls),
    });
    let split = split.finish();

    let a = &one.message.tool_calls.as_ref().unwrap()[0];
    let b = &split.message.tool_calls.as_ref().unwrap()[0];
    assert_eq!(split.message.tool_calls.as_ref().unwrap().len(), 1);
    assert_eq!(b.function.arguments, whole);
    assert_eq!(a.function.arguments, b.function.arguments);
    assert_eq!(b.id, "call_1");
    assert_eq!(b.call_type, "function");
    assert_eq!(b.function.name, "weather");
    assert!(matches!(split.finish_reason, FinishReason::ToolCalls));
}

#[test]
fn interleaved_calls_merge_by_index() {
    let mut a = StreamAssembler::new();
    a.apply(calls_delta(vec![frag(Some(0), Some("a"), Some("f"), "{\"x\""), frag(Some(1), Some("b"), Some("g"), "{")]));
    a.apply(calls_delta(vec![frag(Some(1), None, None, "}"), frag(Some(0), None, None, ":1}")]));
    a.apply(calls_delta(vec![frag(None, Some("c"), Some("h"), "[]")]));
    let r = a.finish();
    let calls = r.message.tool_calls.unwrap();
    assert_eq!(calls.len(), 3);
    assert_eq!((calls[0].id.as_str(), calls[0].function.arguments.as_str()), ("a", "{\"x\":1}"));
    assert_eq!((calls[1].id.as_str(), calls[1].function.arguments.as_str()), ("b", "{}"));
    assert_eq!((calls[2].id.as_str(), calls[2].function.name.as_str()), ("c", "h"));
}

#[test]
fn last_finish_reason_wins() {
    let mut a = StreamAssembler::new();
    a.apply(StreamDelta { content: Some("x".into()), tool_calls: Vec::new(), finish_reason: Some(FinishReason::Length) });
    a.apply(StreamDelta { content: None, tool_calls: Vec::new(), finish_reason: Some(FinishReason::Custom("eos".into())) });
    let r = a.finish();
    assert!(matches!(r.finish_reason, FinishReason::Custom(ref s) if s == "eos"));
    assert_eq!(r.message.content, "x");
}
