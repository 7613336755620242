use std::collections::HashMap;
use tiny_loop::executor::{
    answer_calls, calls_named, tool_names, tool_not_found_result, Dispatch, ParallelExecutor,
    SequentialExecutor,
    SequentialStep,
};
use tiny_loop::types::{FunctionCall, ToolCall, ToolOutput};

fn call(id: &str, name: &str, args: &str) -> ToolCall {
    ToolCall {
        id: id.to_string(),
        call_type: "function".to_string(),
        function: FunctionCall { name: name.to_string(), arguments: args.to_string() },
    }
}

fn result_ids(plan: &[Dispatch]) -> Vec<String> {
    let mut ids = Vec::new();
    for d in plan {
        match d {
            Dispatch::Run { calls, .. } => ids.extend(calls.iter().map(|c| c.id.clone())),
            Dispatch::NotFound { results, .. } => {
                ids.extend(results.iter().map(|r| r.tool_message.tool_call_id.clone()))
            }
        }
    }
    ids
}

#[test]
fn not_found_result_text() {
    let r = tool_not_found_result("call_9".to_string(), "search", 42);
    assert_eq!(r.tool_message.content, "Tool 'search' not found");
    assert_eq!(r.tool_message.tool_call_id, "call_9");
    assert_eq!(r.timestamp, 42);
    assert_eq!(r.elapsed, 0);
}

#[test]
fn parallel_plan_groups_weather_and_search() {
    let mut ex: ParallelExecutor<&str> = ParallelExecutor::new();
    assert!(ex.add("weather".to_string(), "w").is_none());
    assert!(ex.add("search".to_string(), "s").is_none());
    let calls = vec![
        call("1", "weather", "{\"city\":\"Paris\"}"),
        call("2", "search", "{\"q\":\"rust\"}"),
        call("3", "weather", "{\"city\":\"Oslo\"}"),
    ];
    let plan = ex.plan(&calls, 0);
    assert_eq!(plan.len(), 2);
    match &plan[0] {
        Dispatch::Run { name, calls } => {
            assert_eq!(name, "weather");
            let ids: Vec<&str> = calls.iter().map(|c| c.id.as_str()).collect();
            assert_eq!(ids, vec!["1", "3"]);
            assert_eq!(calls[1].function.arguments, "{\"city\":\"Oslo\"}");
        }
        other => panic!("unexpected {:?}", other),
    }
    match &plan[1] {
        Dispatch::Run { name, calls } => {
            assert_eq!(name, "search");
            assert_eq!(calls.len(), 1);
            assert_eq!(calls[0].id, "2");
        }
        other => panic!("unexpected {:?}", other),
    }
    let mut ids = result_ids(&plan);
    ids.sort();
    assert_eq!(ids, vec!["1", "2", "3"]);
}

#[test]
fn unknown_tool_gets_not_found_whatever_else_is_asked() {
    let mut ex: ParallelExecutor<u8> = ParallelExecutor::new();
    ex.add("weather".to_string(), 1);
    let alone = ex.plan(&vec![call("7", "nope", "{}")], 5);
    let mixed = ex.plan(&vec![call("1", "weather", "{}"), call("7", "nope", "{}"), call("8", "nope", "")], 5);
    for plan in [&alone, &mixed] {
        let nf = plan
            .iter()
            .find_map(|d| match d {
                Dispatch::NotFound { name, results } if name == "nope" => Some(results),
                _ => None,
            })
            .expect("a not-found unit");
        assert_eq!(nf[0].tool_message.tool_call_id, "7");
        assert_eq!(nf[0].tool_message.content, "Tool 'nope' not found");
    }
    assert_eq!(result_ids(&mixed).len(), 3);
}

#[test]
fn grouping_keeps_every_call_once() {
    let mut ex: ParallelExecutor<()> = ParallelExecutor::new();
    ex.add("a".to_string(), ());
    ex.add("c".to_string(), ());
    let names = ["a", "b", "c", "a", "b", "a", "d"];
    let calls: Vec<ToolCall> =
        names.iter().enumerate().map(|(i, n)| call(&i.to_string(), n, "{}")).collect();
    let plan = ex.plan(&calls, 0);
    assert_eq!(plan.len(), 4);
    let mut ids = result_ids(&plan);
    ids.sort();
    let mut expected: Vec<String> = (0..names.len()).map(|i| i.to_string()).collect();
    expected.sort();
    assert_eq!(ids, expected);
    let got: Vec<String> = tool_names(&calls);
    assert_eq!(got, vec!["a", "b", "c", "d"]);
    let a: Vec<String> = calls_named(&calls, "a").into_iter().map(|c| c.id).collect();
    assert_eq!(a, vec!["0", "3", "5"]);
    assert!(matches!(&plan[1], Dispatch::NotFound { .. }));
    assert!(matches!(&plan[2], Dispatch::Run { .. }));
}

#[test]
fn empty_turn_plans_nothing() {
    let ex: ParallelExecutor<()> = ParallelExecutor::new();
    assert!(ex.plan(&Vec::new(), 0).is_empty());
    let seq: SequentialExecutor<()> = SequentialExecutor::new();
    assert!(seq.plan(&Vec::new(), 0).is_empty());
}

#[test]
fn last_registration_wins() {
    let mut ex: ParallelExecutor<&str> = ParallelExecutor::new();
    assert_eq!(ex.add("t".to_string(), "first"), None);
    assert_eq!(ex.add("t".to_string(), "second"), Some("first"));
    assert_eq!(ex.get("t"), Some(&"second"));
    assert_eq!(ex.get("u"), None);
    let mut seq: SequentialExecutor<i32> = SequentialExecutor::new();
    assert_eq!(seq.add("x".to_string(), 1), None);
    assert_eq!(seq.add("x".to_string(), 2), Some(1));
    assert_eq!(seq.get("x"), Some(&2));
}

#[test]
fn sequential_plan_keeps_order() {
    let mut ex: SequentialExecutor<u8> = SequentialExecutor::new();
    ex.add("weather".to_string(), 0);
    let calls = vec![call("1", "weather", "{}"), call("2", "search", "{}"), call("3", "weather", "{}")];
    let steps = ex.plan(&calls, 9);
    assert_eq!(steps.len(), 3);
    match &steps[0] {
        SequentialStep::Call(c) => assert_eq!(c.id, "1"),
        other => panic!("unexpected {:?}", other),
    }
    match &steps[1] {
        SequentialStep::NotFound(r) => {
            assert_eq!(r.tool_message.tool_call_id, "2");
            assert_eq!(r.tool_message.content, "Tool 'search' not found");
            assert_eq!(r.timestamp, 9);
        }
        other => panic!("unexpected {:?}", other),
    }
    match &steps[2] {
        SequentialStep::Call(c) => assert_eq!(c.id, "3"),
        other => panic!("unexpected {:?}", other),
    }
    let mut seen: HashMap<String, usize> = HashMap::new();
    for s in &steps {
        let id = match s {
            SequentialStep::Call(c) => c.id.clone(),
            SequentialStep::NotFound(r) => r.tool_message.tool_call_id.clone(),
        };
        *seen.entry(id).or_default() += 1;
    }
    assert!(seen.values().all(|n| *n == 1));
}

fn output(content: &str) -> ToolOutput {
    ToolOutput { content: content.to_string(), timestamp: 3, elapsed: 4 }
}

#[test]
fn outputs_are_paired_with_calls_in_order() {
    let calls = vec![call("a", "t", "{}"), call("b", "t", "{}")];
    let rs = answer_calls(&calls, vec![output("first")], 8);
    assert_eq!(rs.len(), 2);
    assert_eq!((rs[0].tool_message.tool_call_id.as_str(), rs[0].tool_message.content.as_str()), ("a", "first"));
    assert_eq!((rs[0].timestamp, rs[0].elapsed), (3, 4));
    assert_eq!((rs[1].tool_message.tool_call_id.as_str(), rs[1].tool_message.content.as_str()), ("b", "Tool 't' returned no result"));
    assert_eq!((rs[1].timestamp, rs[1].elapsed), (8, 0));
}

#[test]
fn parallel_round_answers_every_call_once() {
    let mut ex: ParallelExecutor<&str> = ParallelExecutor::new();
    ex.add("weather".to_string(), "w");
    ex.add("search".to_string(), "s");
    let calls = vec![
        call("1", "weather", "{}"),
        call("2", "search", "{}"),
        call("3", "weather", "{}"),
        call("4", "nope", "{}"),
    ];
    // One output list per planned unit: weather, search, nope.
    let outputs = vec![vec![output("sunny"), output("rain"), output("extra")], vec![], vec![]];
    let results = ex.gather(&calls, outputs, 6);
    let mut ids: Vec<&str> = results.iter().map(|r| r.tool_message.tool_call_id.as_str()).collect();
    ids.sort();
    assert_eq!(ids, vec!["1", "2", "3", "4"]);
    let content = |id: &str| results.iter().find(|r| r.tool_message.tool_call_id == id).unwrap().tool_message.content.clone();
    assert_eq!(content("1"), "sunny");
    assert_eq!(content("3"), "rain");
    assert_eq!(content("2"), "Tool 'search' returned no result");
    assert_eq!(content("4"), "Tool 'nope' not found");
}

#[test]
fn sequential_round_answers_in_place() {
    let mut ex: SequentialExecutor<u8> = SequentialExecutor::new();
    ex.add("t".to_string(), 0);
    let calls = vec![call("1", "t", "{}"), call("2", "u", "{}"), call("3", "t", "{}")];
    let results = ex.gather(&calls, vec![Some(output("ok")), None], 5);
    let got: Vec<(&str, &str)> = results
        .iter()
        .map(|r| (r.tool_message.tool_call_id.as_str(), r.tool_message.content.as_str()))
        .collect();
    assert_eq!(got, vec![("1", "ok"), ("2", "Tool 'u' not found"), ("3", "Tool 't' returned no result")]);
}
