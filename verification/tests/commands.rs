use swegrep::commands::{
    format_restricted_exec_results, has_valid_restricted_exec_command,
    infer_restricted_exec_command_type, normalize_restricted_exec_command,
    normalize_shorthand_command, restricted_exec_commands,
};
use swegrep::json::{self, Json};
use swegrep::tools::{
    plan_command, prepare_command, restricted_exec_step_updates, status_of_output, string_array,
    CallOutcome, CommandPlan, InstantContextTiming, InstantContextToolCall,
    InstantContextToolUpdate, ToolExecutionStatus,
};

fn json_of(source: &str) -> Json {
    json::parse(source).unwrap()
}

fn entries(source: &str) -> Vec<(String, Json)> {
    match json_of(source) {
        Json::Object(entries) => entries,
        _ => panic!("no object"),
    }
}

fn updates() -> Vec<InstantContextToolUpdate> {
    vec![
        InstantContextToolUpdate {
            step_id: "step-1".to_string(),
            tool_call_id: "command1".to_string(),
            tool_name: "command1".to_string(),
            command: json_of(r#"{"type": "rg", "pattern": "main", "path": "/codebase"}"#),
            status: ToolExecutionStatus::Completed,
            output: "/codebase/src/main.rs:1:fn main() {}".to_string(),
            timing: InstantContextTiming { duration_ms: 12 },
        },
        InstantContextToolUpdate {
            step_id: "step-1".to_string(),
            tool_call_id: "command2".to_string(),
            tool_name: "command2".to_string(),
            command: json_of(r#"{"type": "readfile", "file": "/codebase/src/lib.rs"}"#),
            status: ToolExecutionStatus::TimedOut,
            output: "Error: tool timed out".to_string(),
            timing: InstantContextTiming { duration_ms: 1_000 },
        },
    ]
}

#[test]
fn restricted_exec_results_hide_internal_status_and_timing() {
    let output = format_restricted_exec_results(&updates());

    assert!(output.contains("command1_result:\n/codebase/src/main.rs:1:fn main() {}"));
    assert!(output.contains("command2_result:\nError: tool timed out"));
    assert!(!output.contains("status="));
    assert!(!output.contains("duration_ms="));
}

#[test]
fn restricted_exec_results_hide_internal_status_timing_and_range_map() {
    let output = format_restricted_exec_results(&updates());

    assert!(output.contains("command1_result:\n/codebase/src/main.rs:1:fn main() {}"));
    assert!(output.contains("command2_result:\nError: tool timed out"));
    assert!(!output.contains("status="));
    assert!(!output.contains("duration_ms="));
    assert!(!output.contains("range_map:"));
    assert!(!output.contains("<range_map>"));
}

#[test]
fn restricted_exec_results_are_one_block_for_each_command() {
    let mut all = updates();
    all.insert(
        0,
        InstantContextToolUpdate {
            status: ToolExecutionStatus::Pending,
            ..all[0].clone()
        },
    );
    assert_eq!(
        format_restricted_exec_results(&all),
        "command1_result:\n/codebase/src/main.rs:1:fn main() {}\ncommand2_result:\nError: tool timed out\n"
    );
}

#[test]
fn restricted_exec_commands_keep_standard_command_shape() {
    let args = json_of(
        r#"{"command1": {"type": "rg", "pattern": "needle", "path": "/codebase/src"}}"#,
    );

    assert!(has_valid_restricted_exec_command(&args, 8));
    let commands = restricted_exec_commands(&args, 8);

    assert_eq!(commands.len(), 1);
    assert_eq!(&commands[0].args, args.get("command1").unwrap());
}

#[test]
fn restricted_exec_commands_normalize_model_shorthand_commands() {
    let args = json_of(
        r#"{
            "command1": {"rg": {"pattern": "auth", "path": "/codebase/src", "exclude": ["test"]}},
            "command2": {"readfile": "/codebase/src/core.rs", "start_line": 1, "end_line": 10},
            "command3": {"rg": "parse_answer", "path": "/codebase/src/core"},
            "command4": {"glob": "**/*.rs", "path": "/codebase/src"}
        }"#,
    );

    assert!(has_valid_restricted_exec_command(&args, 8));
    let commands = restricted_exec_commands(&args, 8);

    assert_eq!(commands.len(), 4);
    assert_eq!(commands[0].args.text_at("type"), Some("rg"));
    assert_eq!(commands[0].args.text_at("pattern"), Some("auth"));
    assert_eq!(commands[0].args.text_at("path"), Some("/codebase/src"));
    assert_eq!(commands[1].args.text_at("type"), Some("readfile"));
    assert_eq!(commands[1].args.text_at("file"), Some("/codebase/src/core.rs"));
    assert_eq!(commands[1].args.get("start_line").unwrap().as_i64(), Some(1));
    assert_eq!(commands[2].args.text_at("type"), Some("rg"));
    assert_eq!(commands[2].args.text_at("pattern"), Some("parse_answer"));
    assert_eq!(commands[2].args.text_at("path"), Some("/codebase/src/core"));
    assert_eq!(commands[3].args.text_at("type"), Some("glob"));
    assert_eq!(commands[3].args.text_at("pattern"), Some("**/*.rs"));
    assert_eq!(commands[3].args.text_at("path"), Some("/codebase/src"));
}

#[test]
fn restricted_exec_commands_infer_missing_command_types_from_fields() {
    let args = json_of(
        r#"{
            "command1": {"file": "/codebase/src/core.rs", "start_line": 1, "end_line": 10},
            "command2": {"pattern": "parse_answer", "path": "/codebase/src"},
            "command3": {"pattern": "**/*.rs", "path": "/codebase/src", "type_filter": "file"},
            "command4": {"path": "/codebase/src", "levels": 2},
            "command5": {"path": "/codebase/src", "all": false}
        }"#,
    );

    assert!(has_valid_restricted_exec_command(&args, 8));
    let commands = restricted_exec_commands(&args, 8);

    assert_eq!(commands.len(), 5);
    assert_eq!(commands[0].args.text_at("type"), Some("readfile"));
    assert_eq!(commands[1].args.text_at("type"), Some("rg"));
    assert_eq!(commands[2].args.text_at("type"), Some("glob"));
    assert_eq!(commands[3].args.text_at("type"), Some("tree"));
    assert_eq!(commands[4].args.text_at("type"), Some("ls"));
}

#[test]
fn missing_commands_become_one_that_says_so() {
    for source in ["{}", "[]", "null", r#"{"command9": {"type": "ls"}}"#] {
        let args = json_of(source);
        assert!(!has_valid_restricted_exec_command(&args, 8));
        let commands = restricted_exec_commands(&args, 8);
        assert_eq!(commands.len(), 1);
        assert_eq!(commands[0].id, "command1");
        assert_eq!(
            commands[0].args,
            json_of(r#"{"type": "", "error": "missing restricted_exec command object"}"#)
        );
    }
}

#[test]
fn commands_beyond_the_limit_are_left_out() {
    let args = json_of(
        r#"{"command1": {"type": "ls"}, "command2": {"type": "tree"}, "command3": {"type": "rg"}}"#,
    );
    let commands = restricted_exec_commands(&args, 2);
    assert_eq!(commands.len(), 2);
    assert_eq!(commands[1].name, "command2");
    assert_eq!(restricted_exec_commands(&args, 0).len(), 1);
}

#[test]
fn blank_type_does_not_make_a_command_valid() {
    let args = json_of(r#"{"command1": {"type": "  "}}"#);
    assert!(!has_valid_restricted_exec_command(&args, 8));
    let args = json_of(r#"{"command1": {"type": "  "}, "command4": {"type": "ls"}}"#);
    assert!(has_valid_restricted_exec_command(&args, 8));
    assert!(!has_valid_restricted_exec_command(&args, 3));
}

#[test]
fn typed_command_and_plain_values_stay_as_they_are() {
    for source in [r#"{"type": "ls", "rg": "x"}"#, r#""text""#, "[1]", r#"{"other": 1}"#] {
        let command = json_of(source);
        assert_eq!(normalize_restricted_exec_command(&command), command);
    }
}

#[test]
fn shorthand_keeps_a_type_of_its_own() {
    let normal = normalize_shorthand_command(
        "rg",
        &entries(r#"{"rg": {"type": "glob", "pattern": "p"}}"#),
    );
    assert_eq!(normal, Some(json_of(r#"{"type": "glob", "pattern": "p"}"#)));
    assert_eq!(normalize_shorthand_command("rg", &entries(r#"{"rg": 3}"#)), None);
    assert_eq!(normalize_shorthand_command("other", &entries(r#"{"other": "x"}"#)), None);
    assert_eq!(
        normalize_shorthand_command("ls", &entries(r#"{"ls": "/codebase", "all": true}"#)),
        Some(json_of(r#"{"type": "ls", "path": "/codebase", "all": true}"#))
    );
}

#[test]
fn type_is_inferred_from_fields_only_where_they_tell() {
    assert_eq!(infer_restricted_exec_command_type(&entries(r#"{"file": "f"}"#)), Some("readfile"));
    assert_eq!(infer_restricted_exec_command_type(&entries(r#"{"file": 1}"#)), None);
    assert_eq!(infer_restricted_exec_command_type(&entries(r#"{"pattern": "p"}"#)), None);
    assert_eq!(
        infer_restricted_exec_command_type(&entries(r#"{"path": "p", "long_format": true}"#)),
        Some("ls")
    );
    assert_eq!(infer_restricted_exec_command_type(&entries(r#"{"path": "p"}"#)), None);
}

#[test]
fn plans_follow_the_type_of_a_command() {
    assert_eq!(
        plan_command(&json_of(r#"{"type": "rg", "pattern": "p", "path": "/codebase", "include": ["a", 1, "b"]}"#)),
        CommandPlan::Rg {
            pattern: "p".to_string(),
            path: "/codebase".to_string(),
            included: Some(vec!["a".to_string(), "b".to_string()]),
            excluded: None,
        }
    );
    assert_eq!(
        plan_command(&json_of(r#"{"type": "readfile", "file": "f", "start_line": 2}"#)),
        CommandPlan::ReadFile { file: "f".to_string(), start_line: Some(2), end_line: None }
    );
    assert_eq!(
        plan_command(&json_of(r#"{"type": "glob", "pattern": "*"}"#)),
        CommandPlan::Glob {
            pattern: "*".to_string(),
            path: String::new(),
            type_filter: "file".to_string(),
        }
    );
    assert_eq!(
        plan_command(&json_of(r#"{"type": "unknown"}"#)),
        CommandPlan::Reject("Error: unknown command type 'unknown'".to_string())
    );
    assert_eq!(
        plan_command(&json_of("3")),
        CommandPlan::Reject("Error: missing or invalid command".to_string())
    );
    assert_eq!(string_array(None), None);
}

#[test]
fn command_without_a_type_gets_its_name_as_type() {
    let call = InstantContextToolCall {
        id: "1".to_string(),
        name: "ls".to_string(),
        args: json_of(r#"{"path": "/codebase"}"#),
    };
    assert_eq!(prepare_command(&call), json_of(r#"{"path": "/codebase", "type": "ls"}"#));
    let typed = InstantContextToolCall { args: json_of(r#"{"type": "tree"}"#), ..call };
    assert_eq!(prepare_command(&typed), json_of(r#"{"type": "tree"}"#));
}

fn call(id: &str, name: &str, args: &str) -> InstantContextToolCall {
    InstantContextToolCall { id: id.to_string(), name: name.to_string(), args: json_of(args) }
}

#[test]
fn exec_restricted_exec_step_returns_pending_and_terminal_updates() {
    let calls = vec![
        call("call-1", "command1", r#"{"type": "readfile", "file": "/codebase/test.txt"}"#),
        call("call-2", "command2", r#"{"type": "unknown"}"#),
    ];
    let outcomes = vec![
        CallOutcome::Finished {
            command: calls[0].args.clone(),
            output: "1:hello world".to_string(),
            duration_ms: 3,
        },
        CallOutcome::Finished {
            command: calls[1].args.clone(),
            output: "Error: unknown command type 'unknown'".to_string(),
            duration_ms: 1,
        },
    ];

    let updates = restricted_exec_step_updates("step-1", &calls, &outcomes, 1_000);

    assert_eq!(updates.len(), 4);
    assert_eq!(updates[0].step_id, "step-1");
    assert_eq!(updates[0].tool_call_id, "call-1");
    assert_eq!(updates[0].status, ToolExecutionStatus::Pending);
    assert_eq!(updates[1].tool_call_id, "call-2");
    assert_eq!(updates[1].status, ToolExecutionStatus::Pending);
    assert_eq!(updates[2].tool_call_id, "call-1");
    assert_eq!(updates[2].status, ToolExecutionStatus::Completed);
    assert!(updates[2].output.contains("1:hello world"));
    assert_eq!(updates[3].tool_call_id, "call-2");
    assert_eq!(updates[3].status, ToolExecutionStatus::Error);
}

#[test]
fn exec_restricted_exec_step_marks_timed_out_when_budget_is_exceeded() {
    let calls = vec![call(
        "call-1",
        "command1",
        r#"{"type": "readfile", "file": "/codebase/test.txt"}"#,
    )];

    let updates = restricted_exec_step_updates("step-1", &calls, &Vec::new(), 0);

    assert_eq!(updates[1].status, ToolExecutionStatus::TimedOut);
    let updates = restricted_exec_step_updates("step-1", &calls, &vec![CallOutcome::TimedOut], 900);
    assert_eq!(updates[1].status, ToolExecutionStatus::TimedOut);
    assert_eq!(updates[1].output, "Error: tool timed out");
    assert_eq!(updates[1].timing.duration_ms, 900);
    let updates = restricted_exec_step_updates("step-1", &calls, &vec![CallOutcome::Panicked], 900);
    assert_eq!(updates[1].status, ToolExecutionStatus::Error);
    assert_eq!(updates[1].output, "Error: command panicked");
}

#[test]
fn a_command_of_which_nothing_was_heard_is_reported_as_panicked() {
    let calls = vec![call("call-1", "command1", r#"{"type": "ls", "path": "/codebase"}"#)];

    let updates = restricted_exec_step_updates("step-1", &calls, &Vec::new(), 900);

    assert_eq!(updates.len(), 2);
    assert_eq!(updates[1].tool_call_id, "call-1");
    assert_eq!(updates[1].status, ToolExecutionStatus::Error);
    assert_eq!(updates[1].output, "Error: command panicked");
}

#[test]
fn status_follows_the_start_of_the_output() {
    assert_eq!(status_of_output("  \nError: no"), ToolExecutionStatus::Error);
    assert_eq!(status_of_output("all is well; Error: quoted"), ToolExecutionStatus::Completed);
    assert_eq!(InstantContextTiming::default().duration_ms, 0);
}
