use tiny_loop::types::{
    strip_schema_metadata, Message, Parameters, SystemMessage, ToolDefinition, ToolMessage,
};

fn schema() -> serde_json::Map<String, serde_json::Value> {
    let mut m = serde_json::Map::new();
    m.insert("$schema".to_string(), serde_json::Value::from("http://json-schema.org/draft"));
    m.insert("title".to_string(), serde_json::Value::from("Args"));
    m.insert("description".to_string(), serde_json::Value::from("Arguments"));
    m.insert("type".to_string(), serde_json::Value::from("object"));
    m
}

#[test]
fn parameters_drop_schema_metadata() {
    let p = Parameters::from_object(schema());
    let keys: Vec<&String> = p.object().keys().collect();
    assert_eq!(keys, vec!["type"]);
    assert_eq!(p.object().get("type"), Some(&serde_json::Value::from("object")));
}

#[test]
fn strip_removes_all_metadata() {
    let v = strip_schema_metadata(serde_json::Value::Object(schema()));
    let obj = v.as_object().unwrap();
    assert!(!obj.contains_key("description"));
    assert_eq!(obj.get("type"), Some(&serde_json::Value::from("object")));
    assert_eq!(obj.len(), 1);
    assert!(!obj.contains_key("$schema"));
    assert!(!obj.contains_key("title"));
    assert_eq!(strip_schema_metadata(serde_json::Value::from(true)), serde_json::Value::from(true));
}

#[test]
fn definition_is_a_function_tool() {
    let d = ToolDefinition::new("test".into(), "desc".into(), Parameters::from_object(serde_json::Map::new()));
    assert_eq!(d.tool_type, "function");
    assert_eq!(d.function.name, "test");
    assert_eq!(d.function.description, "desc");
}

#[test]
fn turns_convert_into_messages() {
    let m: Message = SystemMessage { content: "s".into() }.into();
    assert!(matches!(m, Message::System(SystemMessage { content }) if content == "s"));
    let t: Message = ToolMessage { content: "r".into(), tool_call_id: "1".into() }.into();
    assert!(matches!(t, Message::Tool(ToolMessage { tool_call_id, .. }) if tool_call_id == "1"));
}
