use swegrep::protobuf::{connect_frame_decode, connect_frame_encode, extract_strings};
use swegrep::protocol::{
    build_chat_message, build_request, build_system_prompt, limit_commands, trim_messages,
    ChatMessage, ClientInfo, MessageRole, FINAL_FORCE_ANSWER,
};
use swegrep::tool_schema::get_tool_definitions;

fn conversation() -> Vec<ChatMessage> {
    vec![
        ChatMessage::simple(MessageRole::System, "system"),
        ChatMessage::simple(MessageRole::User, "user"),
        ChatMessage::simple(MessageRole::Assistant, "thinking 1"),
        ChatMessage::simple(MessageRole::Tool, "result 1"),
        ChatMessage::simple(MessageRole::Assistant, "thinking 2"),
        ChatMessage::simple(MessageRole::Tool, "result 2"),
    ]
}

#[test]
fn protocol_trim_messages_keeps_head_bridge_and_tail() {
    let mut messages = conversation();

    assert!(trim_messages(&mut messages));
    assert_eq!(messages.len(), 5);
    assert_eq!(messages[0].content, "system");
    assert_eq!(messages[1].content, "user");
    assert!(messages[2].content.contains("omitted"));
    assert_eq!(messages[3].content, "thinking 2");
    assert_eq!(messages[4].content, "result 2");
}

#[test]
fn tests_trim_messages_keeps_head_bridge_and_tail() {
    let mut messages = conversation();

    assert!(trim_messages(&mut messages));
    assert_eq!(messages.len(), 5);
    assert_eq!(messages[0].content, "system");
    assert_eq!(messages[1].content, "user");
    assert!(messages[2].content.contains("omitted"));
    assert_eq!(messages[3].content, "thinking 2");
    assert_eq!(messages[4].content, "result 2");
}

#[test]
fn message_role_wire_values_match_existing_protocol_numbers() {
    assert_eq!(MessageRole::User.wire_value(), 1);
    assert_eq!(MessageRole::Assistant.wire_value(), 2);
    assert_eq!(MessageRole::Tool.wire_value(), 4);
    assert_eq!(MessageRole::System.wire_value(), 5);
}

#[test]
fn build_system_prompt_contains_required_protocol_keywords() {
    let prompt = build_system_prompt(3, 6, 5);

    for keyword in [
        "/codebase",
        "restricted_exec",
        "answer",
        "ANSWER",
        "rg",
        "readfile",
        "tree",
        "ls",
        "glob",
        "6",
        "3",
    ] {
        assert!(prompt.contains(keyword), "missing keyword: {keyword}");
    }
    assert!(!prompt.contains("{max_commands}"));
    assert!(!prompt.contains("{max_turns}"));
    assert!(!prompt.contains("{max_results}"));
}

#[test]
fn protocol_final_force_answer_prompt_matches_windsurf_source() {
    assert_eq!(
        FINAL_FORCE_ANSWER,
        "No search turns remain. You MUST call the answer tool now, even if the answer is incomplete."
    );
    assert!(FINAL_FORCE_ANSWER.contains("MUST"));
    assert!(FINAL_FORCE_ANSWER.contains("answer tool"));
    assert!(FINAL_FORCE_ANSWER.contains("incomplete"));
}

fn check_tool_definitions() {
    let defs: serde_json::Value = serde_json::from_str(&get_tool_definitions(8)).unwrap();
    let tools = defs.as_array().unwrap();

    let names = tools
        .iter()
        .map(|tool| tool["function"]["name"].as_str().unwrap())
        .collect::<Vec<_>>();
    assert_eq!(names, vec!["restricted_exec", "answer"]);

    let schema = &tools[0]["function"]["parameters"]["properties"];
    assert!(schema.get("command1").is_some());
    assert!(schema.get("command8").is_some());
    assert!(schema.get("command9").is_none());

    let serialized = serde_json::to_string(&defs).unwrap();
    assert!(serialized.contains("\"rg\""));
    assert!(serialized.contains("\"readfile\""));
    assert!(serialized.contains("\"tree\""));
    assert!(serialized.contains("\"ls\""));
    assert!(serialized.contains("\"glob\""));
}

#[test]
fn protocol_tool_definitions_expose_only_restricted_exec_and_answer() {
    check_tool_definitions();
}

#[test]
fn tests_tool_definitions_expose_only_restricted_exec_and_answer() {
    check_tool_definitions();
}

#[test]
fn tool_definitions_hold_as_many_commands_as_allowed() {
    let defs: serde_json::Value = serde_json::from_str(&get_tool_definitions(3)).unwrap();
    let parameters = &defs[0]["function"]["parameters"];
    assert!(parameters["properties"].get("command3").is_some());
    assert!(parameters["properties"].get("command4").is_none());
    assert_eq!(parameters["required"][0], "command1");
    assert_eq!(get_tool_definitions(0), get_tool_definitions(1));
    assert_eq!(get_tool_definitions(99), get_tool_definitions(8));
}

#[test]
fn limits_are_kept_between_one_and_eight() {
    assert_eq!(limit_commands(0), 1);
    assert_eq!(limit_commands(5), 5);
    assert_eq!(limit_commands(9), 8);
    assert!(build_system_prompt(4, 50, 5).contains('8'));
    assert_eq!(build_system_prompt(4, 8, 5), build_system_prompt(4, 8, 50));
}

#[test]
fn short_conversations_are_not_trimmed() {
    let mut messages = conversation();
    messages.truncate(4);
    assert!(!trim_messages(&mut messages));
    assert_eq!(messages.len(), 4);
    assert_eq!(messages[3].content, "result 1");
}

#[test]
fn trimming_twice_changes_nothing_more() {
    let mut messages = conversation();
    trim_messages(&mut messages);
    let once: Vec<String> = messages.iter().map(|m| m.content.clone()).collect();
    assert!(trim_messages(&mut messages));
    let twice: Vec<String> = messages.iter().map(|m| m.content.clone()).collect();
    assert_eq!(once, twice);
}

#[test]
fn chat_message_carries_role_and_text() {
    let bytes = build_chat_message(&ChatMessage::simple(MessageRole::User, "hi")).to_bytes();
    assert_eq!(bytes, b"\x10\x01\x1a\x02hi".to_vec());
}

#[test]
fn request_carries_key_token_messages_and_tools() {
    let client = ClientInfo {
        app_version: "1.48.2".to_string(),
        ls_version: "1.9544.35".to_string(),
        os: "linux".to_string(),
        arch: "x86_64".to_string(),
        cpu_count: 4,
    };
    let body = build_request(
        "sk-ws-01-key",
        "mocked.jwt.token",
        &conversation(),
        "[the tools]",
        &client,
    );
    let shown = String::from_utf8_lossy(&body).to_string();
    for part in [
        "sk-ws-01-key",
        "mocked.jwt.token",
        "windsurf",
        "1.48.2",
        "1.9544.35",
        "thinking 1",
        "result 2",
        "[the tools]",
        "Linux",
    ] {
        assert!(shown.contains(part), "missing part: {part}");
    }
    let framed = connect_frame_encode(&body, true);
    assert_eq!(connect_frame_decode(&framed), vec![body.clone()]);
    assert!(extract_strings(&body).contains(&"[the tools]".to_string()));
}

#[test]
fn prompt_has_its_limits_and_no_places_left() {
    let prompt = build_system_prompt(3, 6, 5);
    assert!(prompt.contains("at most 6 `restricted_exec` commands"));
    assert!(prompt.contains("at most 3 turns"));
    assert_eq!(build_system_prompt(4, 99, 1), build_system_prompt(4, 8, 7));
    for place in ["{max_commands}", "{max_turns}", "{max_results}"] {
        assert!(!build_system_prompt(usize::MAX, 0, 0).contains(place));
    }
}
