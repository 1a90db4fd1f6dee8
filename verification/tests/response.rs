use swegrep::json::{self, Json};
use swegrep::patterns::Groups;
use swegrep::protobuf::{connect_frame_encode, ProtobufEncoder};
use swegrep::response::{
    complete_json_fragment, first_object, parse_response, parse_tool_call,
    parse_tool_call_args, remove_last_non_ws_char, repair_json_object_fragment, tool_call_at,
    ParsedModelTurn, ParsedToolCall,
};

fn at<'a>(value: &'a Json, keys: &[&str]) -> &'a Json {
    let mut found = value;
    for key in keys {
        found = found.get(key).unwrap();
    }
    found
}

fn text_of(value: &Json, keys: &[&str]) -> String {
    at(value, keys).as_str().unwrap().to_string()
}

fn calls_of(turn: ParsedModelTurn) -> (String, Vec<ParsedToolCall>) {
    match turn {
        ParsedModelTurn::ToolCalls { thinking, calls } => (thinking, calls),
        other => panic!("expected tool calls, got {other:?}"),
    }
}

fn check_text_tool_call() {
    let mut encoder = ProtobufEncoder::new();
    encoder.write_string(1, "thinking");
    encoder.write_string(
        2,
        r#"[TOOL_CALLS]restricted_exec[ARGS]{"command1":{"type":"rg","pattern":"main","path":"/codebase/src"}}"#,
    );
    let frame = connect_frame_encode(&encoder.to_bytes(), false);

    let (thinking, calls) = calls_of(parse_response(&frame));
    assert_eq!(thinking, "thinking");
    assert_eq!(calls.len(), 1);
    assert_eq!(calls[0].name, "restricted_exec");
    assert_eq!(text_of(&calls[0].args, &["command1", "type"]), "rg");
    assert_eq!(text_of(&calls[0].args, &["command1", "pattern"]), "main");
}

#[test]
fn protocol_parse_response_extracts_text_tool_call() {
    check_text_tool_call();
}

#[test]
fn tests_parse_response_extracts_text_tool_call() {
    check_text_tool_call();
}

#[test]
fn parse_response_repairs_restricted_exec_command_fragments() {
    let mut encoder = ProtobufEncoder::new();
    encoder.write_string(1, "thinking");
    encoder.write_string(
        2,
        r#"[TOOL_CALLS]restricted_exec[ARGS]{"command1":{"rg":{"pattern":"SearchResult","path":"/codebase/src"},"command2":{"file":"/codebase/src/core.rs","start_line":1,"end_line":20}"#,
    );
    let frame = connect_frame_encode(&encoder.to_bytes(), false);

    let (_, calls) = calls_of(parse_response(&frame));

    assert_eq!(calls.len(), 1);
    assert_eq!(calls[0].name, "restricted_exec");
    let args = &calls[0].args;
    assert_eq!(text_of(args, &["command1", "rg", "pattern"]), "SearchResult");
    assert_eq!(text_of(args, &["command1", "rg", "path"]), "/codebase/src");
    assert_eq!(text_of(args, &["command2", "file"]), "/codebase/src/core.rs");
    assert_eq!(at(args, &["command2", "start_line"]).as_i64(), Some(1));
    assert_eq!(at(args, &["command2", "end_line"]).as_i64(), Some(20));
}

fn check_structured_restricted_exec() {
    let frame = connect_frame_encode(
        br#"{"output":"thinking","tool_calls":[{"id":"a","name":"restricted_exec","args":{"command1":{"type":"glob","pattern":"**/*.rs","path":"/codebase","type_filter":"file"},"command2":{"type":"readfile","file":"/codebase/src/lib.rs","start_line":1,"end_line":20}}}]}"#,
        false,
    );

    let (thinking, calls) = calls_of(parse_response(&frame));

    assert_eq!(thinking, "thinking");
    assert_eq!(calls.len(), 1);
    assert_eq!(calls[0].id, "a");
    assert_eq!(calls[0].name, "restricted_exec");
    assert_eq!(text_of(&calls[0].args, &["command1", "type"]), "glob");
    assert_eq!(text_of(&calls[0].args, &["command2", "type"]), "readfile");
    assert_eq!(text_of(&calls[0].args, &["command2", "file"]), "/codebase/src/lib.rs");
}

#[test]
fn protocol_parse_response_extracts_structured_restricted_exec() {
    check_structured_restricted_exec();
}

#[test]
fn tests_parse_response_extracts_structured_restricted_exec() {
    check_structured_restricted_exec();
}

fn check_answer_tool_call() {
    let mut encoder = ProtobufEncoder::new();
    encoder.write_string(1, r#"[TOOL_CALLS]answer[ARGS]{"answer":"<ANSWER></ANSWER>"}"#);
    let frame = connect_frame_encode(&encoder.to_bytes(), false);

    let (_, calls) = calls_of(parse_response(&frame));
    assert_eq!(calls[0].name, "answer");
    assert_eq!(text_of(&calls[0].args, &["answer"]), "<ANSWER></ANSWER>");
}

#[test]
fn protocol_parse_response_extracts_answer_tool_call() {
    check_answer_tool_call();
}

#[test]
fn tests_parse_response_extracts_answer_tool_call() {
    check_answer_tool_call();
}

fn check_error_frame() {
    let frame = connect_frame_encode(
        br#"{"error":{"code":"TIMEOUT","message":"request timed out"}}"#,
        false,
    );

    assert_eq!(
        parse_response(&frame),
        ParsedModelTurn::Error("[Error] TIMEOUT: request timed out".to_string())
    );
}

#[test]
fn protocol_parse_response_handles_error_frame() {
    check_error_frame();
}

#[test]
fn tests_parse_response_handles_error_frame() {
    check_error_frame();
}

fn check_plain_text() {
    let mut encoder = ProtobufEncoder::new();
    encoder.write_string(1, "plain model text");
    let frame = connect_frame_encode(&encoder.to_bytes(), false);

    assert_eq!(
        parse_response(&frame),
        ParsedModelTurn::Text("plain model text".to_string())
    );
}

#[test]
fn protocol_parse_response_returns_text_without_tool_call() {
    check_plain_text();
}

#[test]
fn tests_parse_response_returns_text_without_tool_call() {
    check_plain_text();
}

#[test]
fn empty_response_is_an_empty_text() {
    assert_eq!(parse_response(b""), ParsedModelTurn::Text(String::new()));
}

#[test]
fn open_brackets_are_closed_in_order() {
    assert_eq!(
        complete_json_fragment(r#"{"a":[1,{"b":"x""#),
        Some(r#"{"a":[1,{"b":"x"}]}"#.to_string())
    );
    assert_eq!(complete_json_fragment("{}"), Some("{}".to_string()));
    assert_eq!(complete_json_fragment("{]"), None);
    assert_eq!(complete_json_fragment("[}"), None);
}

#[test]
fn brackets_in_strings_do_not_count() {
    assert_eq!(
        complete_json_fragment(r#"{"a":"[\"{""#),
        Some(r#"{"a":"[\"{"}"#.to_string())
    );
    assert_eq!(complete_json_fragment(r#"{"a":"open"#), None);
}

#[test]
fn last_character_that_shows_is_removed_where_it_is_the_one() {
    let mut value = "{\"a\":1,  ".to_string();
    assert!(remove_last_non_ws_char(&mut value, ','));
    assert_eq!(value, "{\"a\":1");
    assert!(!remove_last_non_ws_char(&mut value, ','));
    assert_eq!(value, "{\"a\":1");
}

#[test]
fn fragment_with_a_trailing_comma_is_repaired() {
    let repaired = repair_json_object_fragment(r#"{"pattern":"x","path":"/codebase","#).unwrap();
    assert_eq!(repaired.text_at("pattern"), Some("x"));
    assert_eq!(repaired.text_at("path"), Some("/codebase"));
    assert!(repair_json_object_fragment("no object").is_none());
}

#[test]
fn first_object_ends_with_its_bracket() {
    assert_eq!(first_object(r#"{"a":{"b":1}} and more }"#), r#"{"a":{"b":1}}"#);
    assert_eq!(first_object(r#"{"a":1"#), r#"{"a":1"#);
}

#[test]
fn arguments_of_other_tools_are_not_repaired() {
    assert!(parse_tool_call_args("answer", r#"{"answer":"x""#).is_none());
    assert!(parse_tool_call_args("answer", r#"{"answer":"x"}"#).is_some());
}

#[test]
fn tool_call_in_text_has_what_stands_before_it_as_thinking() {
    let call = parse_tool_call("  some thoughts [TOOL_CALLS]answer[ARGS]{\"answer\":\"y\"}</s>").unwrap();
    assert_eq!(call.thinking, "some thoughts");
    assert_eq!(call.name, "answer");
    assert_eq!(call.args.text_at("answer"), Some("y"));
    assert!(parse_tool_call("no call here").is_none());
}

#[test]
fn tool_call_is_read_at_given_matches() {
    let clean = r#"ab[TOOL_CALLS]answer[ARGS]{"answer":"z"}"#;
    let groups: Groups = vec![Some((2, 40)), Some((14, 20)), Some((26, 40))];
    let call = tool_call_at(clean, &vec![groups]).unwrap();
    assert_eq!(call.thinking, "ab");
    assert_eq!(call.name, "answer");
    assert_eq!(call.args.text_at("answer"), Some("z"));
    assert!(tool_call_at(clean, &Vec::new()).is_none());
}

#[test]
fn structured_arguments_may_be_json_text() {
    let frame = connect_frame_encode(
        br#"{"tool_calls":[{"function":{"name":"answer","arguments":"{\"answer\":\"q\"}"}}]}"#,
        false,
    );
    let (_, calls) = calls_of(parse_response(&frame));
    assert_eq!(calls[0].name, "answer");
    assert_eq!(text_of(&calls[0].args, &["answer"]), "q");
    assert_eq!(json::print(&calls[0].args), r#"{"answer":"q"}"#);
}
