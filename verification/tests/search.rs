use swegrep::answer::FileProbe;
use swegrep::answer::file_line_count;
use swegrep::error::FastContextError;
use swegrep::executor::{FileRead, ToolExecutor};
use swegrep::json::Json;
use swegrep::listing::DirNode;
use swegrep::path_filter::GitignoreSource;
use swegrep::protobuf::{connect_frame_encode, ProtobufEncoder};
use swegrep::protocol::{ClientInfo, FINAL_FORCE_ANSWER};
use swegrep::repo::{get_repo_map, RepoMap};
use swegrep::response::ParsedModelTurn;
use swegrep::search::{early_failure, unique_patterns, SearchAction, SearchSession};
use swegrep::tools::{
    plan_command, prepare_command, restricted_exec_step_updates, CallOutcome, CommandPlan,
};
use swegrep::turns::{
    build_user_content, format_repo_map_line, format_search_progress_turn,
    format_search_turn_status, search_meta,
};
use swegrep::types::{SearchOptions, SearchResult};
use swegrep::walk::GlobRead;

/// A project of one directory.
struct Project {
    files: Vec<(&'static str, &'static str)>,
}

impl Project {
    fn nodes(&self) -> Vec<DirNode> {
        self.files
            .iter()
            .map(|(name, _)| DirNode {
                name: name.to_string(),
                is_file: true,
                is_dir: false,
                is_file_itself: true,
                is_dir_itself: false,
                entries: Vec::new(),
            })
            .collect()
    }

    fn read(&self, full_path: &str) -> FileRead {
        match self.files.iter().find(|(name, _)| full_path == format!("/project/{name}")) {
            Some((_, content)) => FileRead::Content(content.as_bytes().to_vec()),
            None => FileRead::NotAFile,
        }
    }

    fn probes(&self, paths: &[String]) -> Vec<FileProbe> {
        let mut out = Vec::new();
        for path in paths {
            if let Some((name, content)) = self.files.iter().find(|(name, _)| name == path) {
                out.push(FileProbe {
                    path: path.clone(),
                    full_path: format!("/project/{name}"),
                    is_file: true,
                    line_count: Some(file_line_count(content.as_bytes())),
                });
            }
        }
        out
    }
}

fn client() -> ClientInfo {
    ClientInfo {
        app_version: "1.48.2".to_string(),
        ls_version: "1.9544.35".to_string(),
        os: "linux".to_string(),
        arch: "x86_64".to_string(),
        cpu_count: 4,
    }
}

struct Run {
    result: SearchResult,
    requests: Vec<String>,
    logs: Vec<String>,
}

type Reply = Result<Vec<u8>, FastContextError>;

/// Runs a search against replies that are known beforehand.
fn run(query: &str, max_turns: usize, project: &Project, replies: Vec<Reply>) -> Run {
    let mut options = SearchOptions::new(query, "/project");
    options.max_turns = max_turns;
    run_with(options, project, replies)
}

fn run_with(options: SearchOptions, project: &Project, replies: Vec<Reply>) -> Run {
    let executor = ToolExecutor::new(false, "/project", &GitignoreSource::Missing);
    let map = get_repo_map(&executor, options.tree_depth, Some(project.nodes()));
    let patterns: Vec<String> = Vec::new();
    let (mut session, mut step) = SearchSession::start(
        &options,
        "sk-ws-01-key",
        "mocked.jwt.token",
        client(),
        map,
        &Vec::new(),
    );
    let mut replies = replies.into_iter();
    let mut requests = Vec::new();
    let mut logs = Vec::new();
    loop {
        logs.extend(step.logs);
        step = match step.action {
            SearchAction::Request(body) => {
                requests.push(String::from_utf8_lossy(&body).to_string());
                session.on_reply(&replies.next().unwrap(), &patterns)
            }
            SearchAction::Execute { step_id, calls, timeout_budget_ms } => {
                let outcomes = calls
                    .iter()
                    .map(|call| {
                        let command = prepare_command(call);
                        let output = match plan_command(&command) {
                            CommandPlan::Reject(message) => message,
                            CommandPlan::ReadFile { file, start_line, end_line } => {
                                let found = project.read(&executor.resolve(&file));
                                executor.execute_readfile(&file, start_line, end_line, &found)
                            }
                            CommandPlan::Glob { pattern, path, type_filter } => executor
                                .execute_glob(
                                    &pattern,
                                    &path,
                                    &type_filter,
                                    &GlobRead::Entries(project.nodes()),
                                ),
                            other => panic!("not needed here: {other:?}"),
                        };
                        CallOutcome::Finished { command, output, duration_ms: 1 }
                    })
                    .collect();
                let updates =
                    restricted_exec_step_updates(&step_id, &calls, &outcomes, timeout_budget_ms);
                session.on_updates(&updates, &patterns)
            }
            SearchAction::Inspect(paths) => session.on_probes(&project.probes(&paths), &patterns),
            SearchAction::Finish(result) => return Run { result, requests, logs },
        };
    }
}

fn text_frame(parts: &[&str]) -> Reply {
    let mut encoder = ProtobufEncoder::new();
    let mut field = 1;
    for part in parts {
        encoder.write_string(field, part);
        field += 1;
    }
    Ok(connect_frame_encode(&encoder.to_bytes(), false))
}

fn json_frame(source: &str) -> Reply {
    Ok(connect_frame_encode(source.as_bytes(), false))
}

fn answer_frame(range: &str) -> Reply {
    text_frame(&[&format!(
        r#"[TOOL_CALLS]answer[ARGS]{{"answer": "<ANSWER><file path=\"/codebase/test.txt\"><range>{range}</range></file></ANSWER>"}}"#
    )])
}

fn fault(code: &str, message: &str) -> Reply {
    Err(FastContextError::new(message, code, Json::Null))
}

const READ_ONE: &str = r#"{"output":"read context","tool_calls":[{"id":"q1","name":"restricted_exec","args":{"command1":{"type":"readfile","file":"/codebase/test.txt","start_line":1,"end_line":1}}}]}"#;

#[test]
fn search_search_loop_success_with_mock_streaming() {
    let project = Project { files: vec![("test.txt", "line1\nline2")] };
    let run = run(
        "find main",
        2,
        &project,
        vec![
            text_frame(&[
                "thinking about doing search",
                r#"[TOOL_CALLS]restricted_exec[ARGS]{"command1":{"type":"readfile","file":"/codebase/test.txt"}}"#,
            ]),
            text_frame(&[
                "found answer",
                r#"[TOOL_CALLS]answer[ARGS]{"answer": "<ANSWER><file path=\"/codebase/test.txt\"><range>1-10</range></file></ANSWER>"}"#,
            ]),
        ],
    );

    assert_eq!(run.result.files.len(), 1);
    assert_eq!(run.result.files[0].path, "test.txt");
    assert_eq!(run.result.files[0].ranges, vec![(1, 2)]);
    assert_eq!(run.requests.len(), 2);
}

fn check_restricted_exec_then_answer() {
    let project = Project { files: vec![("test.txt", "line1")] };
    let run = run(
        "find test",
        2,
        &project,
        vec![
            json_frame(r#"{"output":"find candidates","tool_calls":[{"id":"q1","name":"restricted_exec","args":{"command1":{"type":"glob","pattern":"test.txt","path":"/codebase","type_filter":"file"},"command2":{"type":"readfile","file":"/codebase/test.txt","start_line":1,"end_line":1}}}]}"#),
            answer_frame("1-1"),
        ],
    );

    assert_eq!(run.result.files.len(), 1);
    assert_eq!(run.result.files[0].path, "test.txt");
    assert_eq!(run.result.files[0].ranges, vec![(1, 1)]);
    assert!(run.requests[1].contains("command1_result:\n/codebase/test.txt\n"));
    assert!(run.requests[1].contains("command2_result:\n1:line1\n"));
}

#[test]
fn search_search_loop_supports_restricted_exec_then_answer() {
    check_restricted_exec_then_answer();
}

#[test]
fn tests_search_loop_supports_restricted_exec_then_answer() {
    check_restricted_exec_then_answer();
}

#[test]
fn search_loop_reports_remaining_search_turns_after_valid_tool_round() {
    let project = Project { files: vec![("test.txt", "line1")] };
    let run = run("find test", 3, &project, vec![json_frame(READ_ONE), answer_frame("1-1")]);

    assert!(run.result.error.is_none());
    assert_eq!(run.result.files.len(), 1);

    assert_eq!(run.requests.len(), 2);
    assert!(run.requests[1].contains("Search turns used: 1. Search turns remaining: 2."));
    assert!(!run.requests[1].contains(FINAL_FORCE_ANSWER));
}

#[test]
fn search_loop_injects_force_answer_after_last_search_turn() {
    let project = Project { files: vec![("test.txt", "line1\nline2")] };
    let run = run(
        "find test",
        2,
        &project,
        vec![
            json_frame(r#"{"output":"first read","tool_calls":[{"id":"q1","name":"restricted_exec","args":{"command1":{"type":"readfile","file":"/codebase/test.txt","start_line":1,"end_line":1}}}]}"#),
            json_frame(r#"{"output":"second read","tool_calls":[{"id":"q2","name":"restricted_exec","args":{"command1":{"type":"readfile","file":"/codebase/test.txt","start_line":2,"end_line":2}}}]}"#),
            answer_frame("1-2"),
        ],
    );

    assert!(run.result.error.is_none());
    assert_eq!(run.result.files.len(), 1);

    assert_eq!(run.requests.len(), 3);
    assert!(run.requests[1].contains("Search turns used: 1. Search turns remaining: 1."));
    assert!(!run.requests[1].contains(FINAL_FORCE_ANSWER));
    assert!(run.requests[2].contains(FINAL_FORCE_ANSWER));
}

#[test]
fn search_loop_empty_answer_does_not_fallback_to_tool_history() {
    let project = Project { files: vec![("test.txt", "line1\nline2\nline3")] };
    let run = run(
        "find test",
        2,
        &project,
        vec![
            json_frame(r#"{"output":"read context","tool_calls":[{"id":"q1","name":"restricted_exec","args":{"command1":{"type":"readfile","file":"/codebase/test.txt","start_line":1,"end_line":2}}}]}"#),
            text_frame(&[r#"[TOOL_CALLS]answer[ARGS]{"answer": "<ANSWER></ANSWER>"}"#]),
        ],
    );

    assert!(run.result.files.is_empty());

    assert!(run.requests[0].contains("Workspace scope snapshot (depth "));
    assert!(run.requests[0].contains("/codebase"));
    assert!(run.requests[0].contains("test.txt"));
    assert!(run.requests[1].contains("command1_result:"));
    assert!(!run.requests[1].contains("status="));
    assert!(!run.requests[1].contains("duration_ms="));
}

#[test]
fn search_loop_uses_final_answer_without_tool_history_ranges() {
    let project = Project { files: vec![("test.txt", "line1\nline2\nline3")] };
    let run = run(
        "find test",
        2,
        &project,
        vec![
            json_frame(r#"{"output":"read context","tool_calls":[{"id":"q1","name":"restricted_exec","args":{"command1":{"type":"readfile","file":"/codebase/test.txt","start_line":1,"end_line":2}}}]}"#),
            answer_frame("3-3"),
        ],
    );

    assert_eq!(run.result.files.len(), 1);
    assert_eq!(run.result.files[0].path, "test.txt");
    assert_eq!(run.result.files[0].ranges, vec![(3, 3)]);
}

fn check_plain_text_answer() {
    let project = Project { files: vec![("test.txt", "line1")] };
    let run = run(
        "find main",
        2,
        &project,
        vec![text_frame(&[
            r#"<ANSWER><file path="/codebase/test.txt"><range>1-1</range></file></ANSWER>"#,
        ])],
    );

    assert_eq!(run.result.files.len(), 1);
    assert_eq!(run.result.files[0].path, "test.txt");
    assert_eq!(run.requests.len(), 1);
}

#[test]
fn search_search_loop_accepts_plain_text_answer() {
    check_plain_text_answer();
}

#[test]
fn tests_search_loop_accepts_plain_text_answer() {
    check_plain_text_answer();
}

#[test]
fn search_loop_returns_raw_response_for_plain_text_after_force_answer() {
    let project = Project { files: vec![] };
    let run = run(
        "find missing thing",
        1,
        &project,
        vec![
            text_frame(&["I could not find a matching implementation."]),
            text_frame(&["Still no structured answer."]),
        ],
    );

    assert!(run.result.error.is_none());
    assert_eq!(run.result.raw_response.as_deref(), Some("Still no structured answer."));
    assert!(run.result.files.is_empty());

    assert_eq!(run.requests.len(), 2);
    assert!(run.requests[1].contains(FINAL_FORCE_ANSWER));
}

#[test]
fn search_loop_injects_force_answer_after_plain_text_on_last_search_turn() {
    let project = Project { files: vec![("test.txt", "line1")] };
    let run = run(
        "find test",
        2,
        &project,
        vec![
            json_frame(READ_ONE),
            text_frame(&["I could not find a matching implementation."]),
            answer_frame("1-1"),
        ],
    );

    assert!(run.result.error.is_none());
    assert_eq!(run.result.files.len(), 1);

    assert_eq!(run.requests.len(), 3);
    assert!(run.requests[2].contains(FINAL_FORCE_ANSWER));
    assert!(run.requests[2].contains("I could not find a matching implementation."));
}

#[test]
fn search_loop_retries_empty_model_response_once() {
    let project = Project { files: vec![("test.txt", "line1")] };
    let run = run(
        "find test",
        2,
        &project,
        vec![
            Ok(Vec::new()),
            text_frame(&[
                r#"<ANSWER><file path="/codebase/test.txt"><range>1-1</range></file></ANSWER>"#,
            ]),
        ],
    );

    assert!(run.result.error.is_none());
    assert_eq!(run.result.files.len(), 1);
    assert_eq!(run.requests.len(), 2);
    assert_eq!(run.requests[0], run.requests[1]);
}

#[test]
fn search_loop_errors_after_empty_response_retry_exhausted() {
    let project = Project { files: vec![] };
    let run = run("find test", 2, &project, vec![Ok(Vec::new()), Ok(Vec::new())]);

    let error = run.result.error.as_ref().unwrap();
    assert_eq!(error.code, "MODEL_EMPTY_RESPONSE");
    assert_eq!(error.message, "Model returned empty response");
    assert_eq!(run.requests.len(), 2);
}

#[test]
fn search_loop_compensates_invalid_restricted_exec_once() {
    let project = Project { files: vec![("test.txt", "line1")] };
    let run = run(
        "find test",
        2,
        &project,
        vec![
            json_frame(r#"{"output":"bad command","tool_calls":[{"id":"q1","name":"restricted_exec","args":{}}]}"#),
            json_frame(r#"{"output":"read context","tool_calls":[{"id":"q2","name":"restricted_exec","args":{"command1":{"type":"readfile","file":"/codebase/test.txt","start_line":1,"end_line":1}}}]}"#),
            answer_frame("1-1"),
        ],
    );

    assert!(run.result.error.is_none());
    assert_eq!(run.result.files.len(), 1);
    assert_eq!(run.requests.len(), 3);

    assert!(run.requests[1].contains("Search turns used: 0. Search turns remaining: 2."));
    assert!(run.requests[2].contains("Search turns used: 1. Search turns remaining: 1."));
    assert!(!run.requests[2].contains(FINAL_FORCE_ANSWER));
    assert!(run
        .logs
        .contains(&"No valid restricted_exec commands; scheduling compensation turn 1/2".to_string()));
}

#[test]
fn search_ends_when_its_turns_are_used_up() {
    let project = Project { files: vec![("test.txt", "line1")] };
    let bad = r#"{"output":"bad","tool_calls":[{"id":"q1","name":"restricted_exec","args":{}}]}"#;
    let run = run("find test", 1, &project, (0..20).map(|_| json_frame(bad)).collect());
    let error = run.result.error.as_ref().unwrap();
    assert_eq!(error.code, "MAX_TURNS_REACHED");
    assert_eq!(error.message, "Max turns reached without getting an answer");
    assert_eq!(run.requests.len(), 4);
    assert!(run.logs.contains(&"Turn compensation skipped: max compensations (2) reached".to_string()));
    assert_eq!(run.logs.iter().filter(|line| *line == "Injected force-answer prompt").count(), 1);
}

#[test]
fn failed_request_ends_the_search_with_its_code() {
    let project = Project { files: vec![] };
    let run = run("q", 2, &project, vec![fault("RATE_LIMITED", "HTTP 429")]);
    let error = run.result.error.as_ref().unwrap();
    assert_eq!(error.code, "RATE_LIMITED");
    assert_eq!(error.message, "HTTP 429");
    assert_eq!(run.result.meta.error_code.as_deref(), Some("RATE_LIMITED"));
    assert_eq!(run.result.meta.context_trimmed, None);
    assert_eq!(run.result.meta.project_root.as_deref(), Some("/project"));
    assert_eq!(run.result.meta.instant_context, Some(true));
}

#[test]
fn short_conversation_is_not_cut_down_after_a_timeout() {
    let project = Project { files: vec![] };
    let run = run("q", 2, &project, vec![fault("TIMEOUT", "late")]);
    assert_eq!(run.result.error.as_ref().unwrap().message, "late");
    assert_eq!(run.requests.len(), 1);
}

#[test]
fn long_conversation_is_cut_down_once_after_a_timeout() {
    let project = Project { files: vec![("test.txt", "line1")] };
    let first = run(
        "find test",
        4,
        &project,
        vec![json_frame(READ_ONE), fault("TIMEOUT", "late"), answer_frame("1-1")],
    );
    assert_eq!(first.result.files.len(), 1);
    assert_eq!(first.requests.len(), 3);
    assert!(first.requests[1].contains("read context"));
    assert!(!first.requests[2].contains("read context"));
    assert!(first.requests[2].contains("Prior search rounds omitted"));
    assert!(first
        .logs
        .contains(&"TIMEOUT on 2/4: trimming context and retrying...".to_string()));

    let second = run(
        "find test",
        4,
        &project,
        vec![
            json_frame(READ_ONE),
            fault("PAYLOAD_TOO_LARGE", "HTTP 413"),
            fault("TIMEOUT", "late"),
        ],
    );
    let error = second.result.error.as_ref().unwrap();
    assert_eq!(error.code, "TIMEOUT");
    assert_eq!(error.message, "late (retry failure)");
    assert_eq!(second.result.meta.context_trimmed, Some(true));
}

#[test]
fn failure_after_an_empty_response_is_reported_as_it_is() {
    let project = Project { files: vec![] };
    let run = run("q", 2, &project, vec![Ok(Vec::new()), fault("NETWORK_ERROR", "gone")]);
    assert_eq!(run.result.error.as_ref().unwrap().line(), "NETWORK_ERROR: gone");
}

#[test]
fn model_error_ends_the_search() {
    let project = Project { files: vec![] };
    let run = run(
        "q",
        2,
        &project,
        vec![json_frame(r#"{"error":{"code":"X","message":"broken"}}"#)],
    );
    assert_eq!(run.result.error.as_ref().unwrap().line(), "MODEL_ERROR: [Error] X: broken");
}

#[test]
fn unknown_tool_is_answered_with_an_error() {
    let project = Project { files: vec![("test.txt", "line1")] };
    let run = run(
        "q",
        2,
        &project,
        vec![
            json_frame(r#"{"output":"t","tool_calls":[{"id":"z","name":"fly","args":{"a":1}}]}"#),
            answer_frame("1-1"),
        ],
    );
    assert!(run.requests[1].contains("command1_result:\nError: unknown command type 'fly'\n"));
    assert!(run.logs.contains(&"Executing 1 restricted_exec commands".to_string()));
}

#[test]
fn no_more_files_are_reported_than_wanted() {
    let project = Project { files: vec![("a.txt", "1\n2"), ("b.txt", "1"), ("c.txt", "1")] };
    let mut options = SearchOptions::new("q", "/project");
    options.max_results = 2;
    let answer = r#"<ANSWER><file path="/codebase/a.txt"><range>1-9</range></file><file path="/codebase/b.txt"><range>1-1</range></file><file path="/codebase/c.txt"><range>1-1</range></file></ANSWER>"#;
    let run = run_with(options, &project, vec![text_frame(&[answer])]);
    let paths: Vec<&str> = run.result.files.iter().map(|file| file.path.as_str()).collect();
    assert_eq!(paths, vec!["a.txt", "b.txt"]);
    assert_eq!(run.result.files[0].full_path, "/project/a.txt");
    assert_eq!(run.result.files[0].ranges, vec![(1, 2)]);
}

#[test]
fn turn_without_calls_goes_on() {
    let executor = ToolExecutor::new(false, "/project", &GitignoreSource::Missing);
    let map = get_repo_map(&executor, 1, Some(Vec::new()));
    let options = SearchOptions::new("q", "/project");
    let (mut session, step) =
        SearchSession::start(&options, "k", "j", client(), map, &vec!["odd".to_string()]);
    assert_eq!(
        step.logs,
        vec![
            "Path filter warning: odd".to_string(),
            "Repo map: scope snapshot depth 1 (0.0KB)".to_string(),
            "Turn 1/4".to_string(),
        ]
    );
    let turn = ParsedModelTurn::ToolCalls { thinking: String::new(), calls: Vec::new() };
    let step = session.on_turn(&turn, &Vec::new());
    assert_eq!(step.logs, vec!["Turn 2/4".to_string()]);
    assert_eq!(session.turn_label(), "Turn 2/4");
    match step.action {
        SearchAction::Request(_) => {}
        other => panic!("expected a request, got {other:?}"),
    }
}

#[test]
fn debug_log_learns_of_retries_and_answers() {
    let executor = ToolExecutor::new(false, "/project", &GitignoreSource::Missing);
    let map = get_repo_map(&executor, 1, Some(Vec::new()));
    let options = SearchOptions::new("q", "/project");
    let (mut session, _) = SearchSession::start(&options, "k", "j", client(), map, &Vec::new());
    assert_eq!(session.reply_label(), "Turn 1/4");
    assert_eq!(session.answer_text(), None);
    session.on_turn(&ParsedModelTurn::Text(" ".to_string()), &Vec::new());
    assert_eq!(session.turn_label(), "Turn 1/4");
    assert_eq!(session.reply_label(), "Turn 1/4 retry");
    session.on_turn(&ParsedModelTurn::Text("<ANSWER></ANSWER>".to_string()), &Vec::new());
    assert_eq!(session.answer_text(), Some("<ANSWER></ANSWER>".to_string()));
}

#[test]
fn search_that_cannot_start_says_why() {
    let result = early_failure("/project", "API_KEY_ERROR", "no key");
    assert_eq!(result.error.as_ref().unwrap().line(), "API_KEY_ERROR: no key");
    assert_eq!(result.meta.project_root.as_deref(), Some("/project"));
    assert_eq!(result.meta.error_code.as_deref(), Some("API_KEY_ERROR"));
    assert_eq!(result.meta.tree_depth, None);
}

fn check_user_content() {
    let repo_map = RepoMap {
        tree: "/codebase\nCargo.toml\nsrc/\nsrc/lib.rs".to_string(),
        depth: 2,
        size_bytes: 35,
        fell_back: false,
    };

    let content = build_user_content("find parser", &repo_map);

    assert!(content.contains("Workspace scope snapshot (depth 2):"));
    assert!(content.contains("/codebase"));
    assert!(content.contains("Cargo.toml"));
    assert!(content.contains("src/"));
    assert!(content.contains(r#"Please find the code context for the query: "(find parser)""#));
    assert!(content.contains(r#"Constrain search to directory: "(/codebase)""#));
}

#[test]
fn search_build_user_content_includes_compact_scope_snapshot() {
    check_user_content();
}

#[test]
fn tests_build_user_content_includes_compact_scope_snapshot() {
    check_user_content();
}

#[test]
fn user_content_is_the_snapshot_and_the_query() {
    let repo_map =
        RepoMap { tree: "/codebase".to_string(), depth: 0, size_bytes: 9, fell_back: true };
    assert_eq!(
        build_user_content("q", &repo_map),
        "Workspace scope snapshot (depth 0):\n```text\n/codebase\n```\n\nPlease find the code context for the query: \"(q)\". Constrain search to directory: \"(/codebase)\"."
    );
}

#[test]
fn search_progress_turn_log_uses_configured_search_turn_count() {
    assert_eq!(format_search_progress_turn(3, 0, 4, false), "Turn 4/4");
    assert_eq!(format_search_progress_turn(4, 0, 5, false), "Turn 5/5");
    assert_eq!(format_search_progress_turn(5, 0, 6, false), "Turn 6/6");
    assert_eq!(format_search_progress_turn(5, 1, 5, false), "Compensation turn 1/2");
    assert_eq!(format_search_progress_turn(6, 2, 5, false), "Compensation turn 2/2");
    assert_eq!(format_search_progress_turn(3, 0, 3, true), "Final answer turn");
}

#[test]
fn turn_status_counts_what_is_left() {
    assert_eq!(
        format_search_turn_status(1, 3),
        "Search turns used: 1. Search turns remaining: 2."
    );
    assert_eq!(
        format_search_turn_status(5, 3),
        "Search turns used: 5. Search turns remaining: 0."
    );
}

#[test]
fn sizes_are_rounded_to_tenths_of_a_kilobyte() {
    let map = |size_bytes: usize, fell_back: bool| RepoMap {
        tree: String::new(),
        depth: 3,
        size_bytes,
        fell_back,
    };
    assert_eq!(search_meta("/p", &map(1024, false), None).tree_size_tenths_kb, Some(10));
    assert_eq!(search_meta("/p", &map(256, false), None).tree_size_tenths_kb, Some(3));
    assert_eq!(search_meta("/p", &map(12_800, false), None).tree_size_tenths_kb, Some(125));
    assert_eq!(
        format_repo_map_line(&map(256, false)),
        "Repo map: scope snapshot depth 3 (0.2KB)"
    );
    assert_eq!(
        format_repo_map_line(&map(768, true)),
        "Repo map: scope snapshot depth 3 (0.8KB) [fell back]"
    );
    assert_eq!(
        format_repo_map_line(&map(12_800, false)),
        "Repo map: scope snapshot depth 3 (12.5KB)"
    );
}

#[test]
fn size_texts_are_those_of_floating_point() {
    for size in (0..40_000usize).step_by(13).chain((0..40_000).step_by(256)) {
        let map = RepoMap { tree: String::new(), depth: 1, size_bytes: size, fell_back: false };
        let shown = format!("Repo map: scope snapshot depth 1 ({:.1}KB)", size as f64 / 1024.0);
        assert_eq!(format_repo_map_line(&map), shown);
        let rounded = (size as f64 / 1024.0 * 10.0).round() as u64;
        assert_eq!(search_meta("/p", &map, None).tree_size_tenths_kb, Some(rounded));
    }
}

#[test]
fn patterns_are_reported_once_in_their_order() {
    let patterns: Vec<String> = ["b", "a", "b", "c", "a"].iter().map(|p| p.to_string()).collect();
    assert_eq!(unique_patterns(&patterns), vec!["b", "a", "c"]);
    assert!(unique_patterns(&Vec::new()).is_empty());
}
