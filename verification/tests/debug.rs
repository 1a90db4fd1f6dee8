use swegrep::debug::{
    answer_source, debug_answer_result, debug_model_response, debug_parsed_turn_summary, debug_preview,
    debug_response_strings, matches_bool_env,
};
use swegrep::json;
use swegrep::protobuf::{connect_frame_encode, ProtobufEncoder};
use swegrep::response::{parse_response, ParsedModelTurn, ParsedToolCall};

#[test]
fn debug_parsed_turn_summary_includes_model_values() {
    let parsed = ParsedModelTurn::ToolCalls {
        thinking: "look\naround".to_string(),
        calls: vec![ParsedToolCall {
            id: "tool-1".to_string(),
            name: "restricted_exec".to_string(),
            args: json::parse(
                r#"{"command1": {"type": "rg", "pattern": "format_search_success", "path": "/codebase/src"}}"#,
            )
            .unwrap(),
        }],
    };

    let summary = debug_parsed_turn_summary(&parsed);

    assert!(summary.contains("tool_calls count=1"));
    assert!(summary.contains("restricted_exec"));
    assert!(summary.contains("format_search_success"));
    assert!(summary.contains("look\\naround"));
}

#[test]
fn debug_preview_truncates_and_escapes_control_characters() {
    assert_eq!(debug_preview("a\nb\tc", 20), "a\\nb\\tc");
    assert_eq!(debug_preview("abcdef", 3), "abc...");
}

#[test]
fn debug_model_response_writes_model_values_to_log() {
    let mut response = ProtobufEncoder::new();
    response.write_string(1, "model text value");
    let frame = connect_frame_encode(&response.to_bytes(), false);
    let parsed = parse_response(&frame);

    let log = debug_model_response("Turn 1/4", &frame, &parsed).join("\n");

    assert!(log.contains("model_response turn=Turn 1/4"));
    assert!(log.contains("model_response_strings"));
    assert!(log.contains("model text value"));
}

#[test]
fn response_strings_hold_fields_and_the_frame_itself() {
    let frame = connect_frame_encode(b"no fields but a text", false);
    let strings = debug_response_strings(&frame);
    assert!(strings.contains(&"no fields but a text".to_string()));
    assert!(debug_response_strings(b"").is_empty());
    let lines = debug_model_response("t", b"", &ParsedModelTurn::Text("x".to_string()));
    assert_eq!(lines, vec!["model_response turn=t bytes=0 parsed=text value=x"]);
}

#[test]
fn turns_have_their_summaries() {
    assert_eq!(
        debug_parsed_turn_summary(&ParsedModelTurn::Error("no\\go".to_string())),
        "error value=no\\\\go"
    );
    assert_eq!(
        debug_answer_result("text", "<ANSWER>\r\n", 2),
        "final_answer source=text files=2 xml=<ANSWER>\\r\\n"
    );
}

#[test]
fn answers_have_a_source() {
    assert_eq!(answer_source(&ParsedModelTurn::Text(String::new())), "text");
    let calls = ParsedModelTurn::ToolCalls { thinking: String::new(), calls: Vec::new() };
    assert_eq!(answer_source(&calls), "tool_call");
}

#[test]
fn switches_are_on_by_their_words() {
    for on in ["1", "true", "YES", " on "] {
        assert!(matches_bool_env(on));
    }
    for off in ["0", "", "2", "enabled"] {
        assert!(!matches_bool_env(off));
    }
}
