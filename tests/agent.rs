use tiny_loop::agent::{Agent, Next};
use tiny_loop::history::{History, InfiniteHistory};
use tiny_loop::types::{
    AssistantMessage, FinishReason, FunctionCall, LLMResponse, Message, ToolCall, ToolMessage,
    ToolResult,
};

fn call(id: &str, name: &str) -> ToolCall {
    ToolCall {
        id: id.to_string(),
        call_type: "function".to_string(),
        function: FunctionCall { name: name.to_string(), arguments: "{}".to_string() },
    }
}

fn result(id: &str, content: &str) -> ToolResult {
    ToolResult {
        tool_message: ToolMessage { content: content.to_string(), tool_call_id: id.to_string() },
        timestamp: 1,
        elapsed: 2,
    }
}

#[test]
fn chat_with_a_plain_answer() {
    let mut agent = Agent::new(InfiniteHistory::new()).system("helper".to_string(), 0);
    agent.user("2+2?".to_string(), 0);
    let response = LLMResponse {
        message: AssistantMessage { content: "4".to_string(), tool_calls: None },
        finish_reason: FinishReason::Stop,
    };
    match agent.record_response(response, 10, 5) {
        Next::Finished(answer) => assert_eq!(answer, "4"),
        other => panic!("unexpected {:?}", other),
    }
    let turns = agent.history().get_all();
    assert_eq!(turns.len(), 3);
    assert!(matches!(&turns[0].message, Message::System(m) if m.content == "helper"));
    assert!(matches!(&turns[1].message, Message::User(m) if m.content == "2+2?"));
    assert!(matches!(&turns[2].message, Message::Assistant(m) if m.content == "4"));
    assert_eq!((turns[2].timestamp, turns[2].elapsed), (10, 5));
}

#[test]
fn tool_step_pairs_every_call() {
    let mut agent = Agent::new(InfiniteHistory::new());
    agent.user("weather?".to_string(), 0);
    let response = LLMResponse {
        message: AssistantMessage {
            content: String::new(),
            tool_calls: Some(vec![call("1", "weather"), call("2", "search"), call("3", "weather")]),
        },
        finish_reason: FinishReason::ToolCalls,
    };
    let calls = match agent.record_response(response, 0, 0) {
        Next::RunTools(calls) => calls,
        other => panic!("unexpected {:?}", other),
    };
    assert_eq!(calls.len(), 3);
    let results = vec![result("1", "sunny"), result("3", "rain"), result("2", "found")];
    agent.record_tool_results(results);
    let turns = agent.history().get_all();
    assert_eq!(turns.len(), 5);
    assert!(matches!(&turns[1].message, Message::Assistant(_)));
    let mut ids: Vec<String> = turns[2..]
        .iter()
        .map(|t| match &t.message {
            Message::Tool(m) => m.tool_call_id.clone(),
            other => panic!("unexpected {:?}", other),
        })
        .collect();
    ids.sort();
    assert_eq!(ids, vec!["1", "2", "3"]);
}

#[test]
fn any_other_finish_reason_ends_the_run_without_tools() {
    for reason in [FinishReason::Stop, FinishReason::Length, FinishReason::ContentFilter, FinishReason::Custom("eos".into())] {
        let mut agent = Agent::new(InfiniteHistory::new());
        let response = LLMResponse {
            message: AssistantMessage { content: "done".to_string(), tool_calls: Some(vec![call("1", "t")]) },
            finish_reason: reason,
        };
        match agent.record_response(response, 0, 0) {
            Next::Finished(answer) => assert_eq!(answer, "done"),
            other => panic!("unexpected {:?}", other),
        }
        assert_eq!(agent.history().get_all().len(), 1);
    }
}

#[test]
fn tool_calls_reason_without_calls_calls_again() {
    let mut agent = Agent::new(InfiniteHistory::new());
    let response = LLMResponse {
        message: AssistantMessage { content: "".to_string(), tool_calls: Some(Vec::new()) },
        finish_reason: FinishReason::ToolCalls,
    };
    assert!(matches!(agent.record_response(response, 0, 0), Next::CallModel));
    assert_eq!(agent.history().get_all().len(), 1);
}

#[test]
fn history_batches_append_in_order() {
    let mut h = InfiniteHistory::new();
    let a = tiny_loop::types::TimedMessage {
        message: Message::User(tiny_loop::types::UserMessage { content: "a".into() }),
        timestamp: 1,
        elapsed: 0,
    };
    let mut b = a.clone();
    b.timestamp = 2;
    h.add_batch(vec![a, b]);
    h.add_batch(Vec::new());
    let all = h.get_all();
    assert_eq!(all.len(), 2);
    assert_eq!((all[0].timestamp, all[1].timestamp), (1, 2));
}
