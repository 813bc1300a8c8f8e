use serde_json::Value;
use vachat::agent_convert::{convert_agent_matrix_content, MatrixContent};

fn text_content(body: &str) -> MatrixContent {
    MatrixContent {
        msgtype: Some("m.text".to_string()),
        body: Some(body.to_string()),
        ..Default::default()
    }
}

fn json(text: &str) -> Value {
    serde_json::from_str(text).unwrap()
}

#[test]
fn qwenpaw_tool_use_json_block() {
    let body = "🔧 **execute_shell_command**\n```\n{\"command\": \"ls\"}\n```";
    let out = convert_agent_matrix_content(&text_content(body), Some("qwenpaw"));
    assert_eq!(out.content_type, "vachat/agent/tool_use");
    assert_eq!(out.content, "execute_shell_command");
    let properties = out.properties.expect("properties");
    let input = properties.get("input").unwrap();
    assert_eq!(input.get("command").unwrap(), "ls");
}

#[test]
fn qwenpaw_tool_use_non_json_block() {
    let body = "🔧 **search**\n```\nnot json at all\n```";
    let out = convert_agent_matrix_content(&text_content(body), Some("qwenpaw"));
    assert_eq!(out.content_type, "vachat/agent/tool_use");
    assert_eq!(out.content, "search");
    let properties = out.properties.expect("properties");
    let input = properties.get("input").unwrap();
    assert_eq!(input.as_str().unwrap(), "not json at all");
}

#[test]
fn qwenpaw_tool_use_no_code_block() {
    let out = convert_agent_matrix_content(&text_content("🔧 **foo**"), Some("qwenpaw"));
    assert_eq!(out.content_type, "vachat/agent/tool_use");
    assert_eq!(out.content, "foo");
    assert!(out.properties.is_none());
}

#[test]
fn qwenpaw_tool_result() {
    let body = "✅ **execute_shell_command**:\n```\n2026年7月25日 22:03:29\n```";
    let out = convert_agent_matrix_content(&text_content(body), Some("qwenpaw"));
    assert_eq!(out.content_type, "vachat/agent/tool_result");
    assert_eq!(out.content, "execute_shell_command");
    assert_eq!(
        out.properties
            .expect("properties")
            .get("result")
            .unwrap()
            .as_str()
            .unwrap(),
        "2026年7月25日 22:03:29"
    );
}

#[test]
fn qwenpaw_real_tool_use_body() {
    let body = "🔧 **execute_shell_command**\n```\n{\"command\": \"powershell -Command \\\"[System.TimeZoneInfo]::ConvertTimeBySystemTimeZoneId([DateTime]::UtcNow, 'Eastern Standard Time')\\\"\"}\n```";
    let out = convert_agent_matrix_content(&text_content(body), Some("qwenpaw"));
    assert_eq!(out.content_type, "vachat/agent/tool_use");
    assert_eq!(out.content, "execute_shell_command");
    let properties = out.properties.expect("properties");
    let input = properties.get("input").unwrap();
    assert!(input.get("command").unwrap().as_str().unwrap().contains("powershell"));
}

#[test]
fn qwenpaw_real_tool_result_body() {
    let body = "✅ **execute_shell_command**:\n```\n\r\n2026年7月25日 22:03:29\r\n\r\n\r\n```";
    let out = convert_agent_matrix_content(&text_content(body), Some("qwenpaw"));
    assert_eq!(out.content_type, "vachat/agent/tool_result");
    assert_eq!(
        out.properties
            .expect("properties")
            .get("result")
            .unwrap()
            .as_str()
            .unwrap(),
        "2026年7月25日 22:03:29"
    );
}

#[test]
fn qwenpaw_thinking_stays_prose() {
    let out = convert_agent_matrix_content(
        &text_content("The user wants to know the time in New York."),
        Some("qwenpaw"),
    );
    assert_eq!(out.content_type, "text/plain");
}

#[test]
fn unknown_agent_type_falls_through_to_prose() {
    let out = convert_agent_matrix_content(&text_content("🔧 **foo**"), Some("hermes"));
    assert_eq!(out.content_type, "text/plain");
}

#[test]
fn no_agent_type_falls_through_to_prose() {
    let out = convert_agent_matrix_content(&text_content("🔧 **foo**"), None);
    assert_eq!(out.content_type, "text/plain");
}

#[test]
fn prose_markdown_with_format() {
    let c = MatrixContent {
        msgtype: Some("m.text".to_string()),
        body: Some("# hi".to_string()),
        has_format: true,
        ..Default::default()
    };
    let out = convert_agent_matrix_content(&c, Some("qwenpaw"));
    assert_eq!(out.content_type, "text/markdown");
    assert_eq!(out.content, "# hi");
}

#[test]
fn prose_plain_without_format() {
    let out = convert_agent_matrix_content(&text_content("hello"), Some("qwenpaw"));
    assert_eq!(out.content_type, "text/plain");
    assert_eq!(out.content, "hello");
}

#[test]
fn explicit_thinking_msgtype() {
    let c = MatrixContent {
        msgtype: Some("vachat.agent.thinking".to_string()),
        body: Some("analyzing".to_string()),
        ..Default::default()
    };
    let out = convert_agent_matrix_content(&c, Some("qwenpaw"));
    assert_eq!(out.content_type, "vachat/agent/thinking");
    assert_eq!(out.content, "analyzing");
    assert!(out.properties.is_none());
}

#[test]
fn explicit_tool_use_fields() {
    let c = MatrixContent {
        msgtype: Some("vachat.agent.tool_use".to_string()),
        name: Some("search".to_string()),
        id: Some(Value::String("tu_1".to_string())),
        input: Some(json(r#"{ "query": "rust" }"#)),
        ..Default::default()
    };
    let out = convert_agent_matrix_content(&c, Some("qwenpaw"));
    assert_eq!(out.content_type, "vachat/agent/tool_use");
    assert_eq!(out.content, "search");
    let props = out.properties.expect("properties");
    assert_eq!(props.get("id").unwrap(), "tu_1");
    assert_eq!(props.get("input").unwrap().get("query").unwrap(), "rust");
}

#[test]
fn explicit_tool_result_fields() {
    let c = MatrixContent {
        vachat_content_type: Some("vachat/agent/tool_result".to_string()),
        tool_use_id: Some("tu_1".to_string()),
        result: Some(Value::String("found 3 hits".to_string())),
        is_error: Some(Value::Bool(false)),
        ..Default::default()
    };
    let out = convert_agent_matrix_content(&c, Some("qwenpaw"));
    assert_eq!(out.content_type, "vachat/agent/tool_result");
    assert_eq!(out.content, "tu_1");
    let props = out.properties.expect("properties");
    assert_eq!(props.get("result").unwrap(), "found 3 hits");
    assert_eq!(props.get("is_error").unwrap(), false);
}

#[test]
fn explicit_unknown_agent_type_passes_through() {
    let c = MatrixContent {
        msgtype: Some("vachat.agent.status".to_string()),
        body: Some("running".to_string()),
        ..Default::default()
    };
    let out = convert_agent_matrix_content(&c, Some("qwenpaw"));
    assert_eq!(out.content_type, "vachat/agent/status");
    assert_eq!(out.content, "running");
    assert!(out.properties.is_none());
}

#[test]
fn explicit_takes_precedence_over_inference() {
    let c = MatrixContent {
        msgtype: Some("vachat.agent.thinking".to_string()),
        body: Some("🔧 **foo**".to_string()),
        ..Default::default()
    };
    let out = convert_agent_matrix_content(&c, Some("qwenpaw"));
    assert_eq!(out.content_type, "vachat/agent/thinking");
}
