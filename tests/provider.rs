use tiny_loop::provider::{
    check_status, finish_reason_name, parse_finish_reason, retryable, role, select_response, Choice,
    Error, OpenAIProvider,
};
use tiny_loop::types::{AssistantMessage, FinishReason, Message, ToolMessage, UserMessage};

fn http() -> Error {
    Error::Http("connection refused".to_string())
}

#[test]
fn defaults() {
    let p = OpenAIProvider::new();
    assert_eq!(p.endpoint(), "https://api.openai.com/v1/chat/completions");
    assert_eq!(p.authorization(), "Bearer ");
    assert_eq!(p.model_name(), "gpt-4o");
    assert!(p.headers().is_empty());
    assert!(p.custom_body().is_empty());
    assert_eq!(p.retry_after(1, &http()), Some(1000));
}

#[test]
fn builders_set_what_they_name() {
    let p = OpenAIProvider::new()
        .base_url("https://api.custom.com/v1".to_string())
        .api_key("sk-test".to_string())
        .model("gpt-4o-mini".to_string())
        .max_retries(5)
        .retry_delay(2000);
    assert_eq!(p.endpoint(), "https://api.custom.com/v1/chat/completions");
    assert_eq!(p.authorization(), "Bearer sk-test");
    assert_eq!(p.model_name(), "gpt-4o-mini");
    assert_eq!(p.retry_after(5, &http()), Some(2000));
    assert_eq!(p.retry_after(6, &http()), None);
}

#[test]
fn retries_stop_after_the_budget() {
    let p = OpenAIProvider::new().max_retries(3).retry_delay(7);
    let mut attempts = 0u64;
    let mut waits = Vec::new();
    loop {
        attempts += 1;
        match p.retry_after(attempts, &Error::ApiError { status: 503, body: String::new() }) {
            Some(d) => waits.push(d),
            None => break,
        }
    }
    assert_eq!(attempts, 4);
    assert_eq!(waits, vec![7, 7, 7]);
    let none = OpenAIProvider::new().max_retries(0);
    assert_eq!(none.retry_after(1, &http()), None);
}

#[test]
fn protocol_errors_are_not_retried() {
    let p = OpenAIProvider::new();
    assert_eq!(p.retry_after(1, &Error::NoChoices), None);
    assert_eq!(p.retry_after(1, &Error::Json("bad".into())), None);
    assert_eq!(p.retry_after(1, &Error::UnexpectedMessage("user".into())), None);
    assert!(retryable(&http()));
    assert!(!retryable(&Error::InvalidBody));
}

#[test]
fn headers_are_checked_and_normalized() {
    let p = OpenAIProvider::new()
        .header("X-Custom-Header".to_string(), "value".to_string())
        .unwrap()
        .header("x-custom-header".to_string(), "second".to_string())
        .unwrap();
    let hs = p.headers();
    assert_eq!(hs.len(), 1);
    assert_eq!(hs.get("x-custom-header").unwrap(), "second");
    assert!(hs.contains_key("X-Custom-Header"));
    assert!(matches!(
        OpenAIProvider::new().header("bad header".to_string(), "v".to_string()),
        Err(Error::InvalidHeader(_))
    ));
    assert!(matches!(
        OpenAIProvider::new().header("ok".to_string(), "line\nbreak".to_string()),
        Err(Error::InvalidHeader(_))
    ));
}

#[test]
fn body_must_be_an_object() {
    let mut m = serde_json::Map::new();
    m.insert("top_p".to_string(), serde_json::Value::from(1));
    let p = OpenAIProvider::new().body(serde_json::Value::Object(m)).unwrap();
    assert!(p.custom_body().contains_key("top_p"));
    let mut request = serde_json::Map::new();
    request.insert("model".to_string(), serde_json::Value::from("m"));
    request.insert("top_p".to_string(), serde_json::Value::from(0));
    p.merge_custom_body(&mut request);
    assert_eq!(request.len(), 2);
    assert_eq!(request.get("top_p"), Some(&serde_json::Value::from(1)));
    assert_eq!(request.get("model"), Some(&serde_json::Value::from("m")));
    assert!(matches!(
        OpenAIProvider::new().body(serde_json::Value::from(3)),
        Err(Error::InvalidBody)
    ));
}

#[test]
fn status_check() {
    assert!(tiny_loop::provider::status_ok(204));
    assert!(!tiny_loop::provider::status_ok(404));
    assert!(check_status(200, String::new()).is_ok());
    assert!(check_status(299, String::new()).is_ok());
    match check_status(500, "boom".to_string()) {
        Err(Error::ApiError { status, body }) => {
            assert_eq!(status, 500);
            assert_eq!(body, "boom");
        }
        other => panic!("unexpected {:?}", other),
    }
    assert!(check_status(199, String::new()).is_err());
    assert!(check_status(300, String::new()).is_err());
}

#[test]
fn first_choice_must_be_an_assistant_turn() {
    assert!(matches!(select_response(Vec::new()), Err(Error::NoChoices)));
    let ok = select_response(vec![
        Choice {
            message: Message::Assistant(AssistantMessage { content: "hi".into(), tool_calls: None }),
            finish_reason: FinishReason::Stop,
        },
        Choice {
            message: Message::User(UserMessage { content: "x".into() }),
            finish_reason: FinishReason::Length,
        },
    ])
    .unwrap();
    assert_eq!(ok.message.content, "hi");
    assert!(matches!(ok.finish_reason, FinishReason::Stop));
    let bad = select_response(vec![Choice {
        message: Message::Tool(ToolMessage { content: "r".into(), tool_call_id: "1".into() }),
        finish_reason: FinishReason::Stop,
    }]);
    assert!(matches!(bad, Err(Error::UnexpectedMessage(r)) if r == "tool"));
}

#[test]
fn finish_reasons_by_wire_name() {
    assert!(matches!(parse_finish_reason("stop".into()), FinishReason::Stop));
    assert!(matches!(parse_finish_reason("length".into()), FinishReason::Length));
    assert!(matches!(parse_finish_reason("tool_calls".into()), FinishReason::ToolCalls));
    assert!(matches!(parse_finish_reason("content_filter".into()), FinishReason::ContentFilter));
    assert!(matches!(parse_finish_reason("eos".into()), FinishReason::Custom(s) if s == "eos"));
    assert_eq!(finish_reason_name(&FinishReason::ToolCalls), "tool_calls");
    assert_eq!(finish_reason_name(&FinishReason::Custom("x".into())), "x");
    assert_eq!(role(&Message::User(UserMessage { content: String::new() })), "user");
}
