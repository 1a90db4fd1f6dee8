use swegrep::output::{
    format_search_content, format_search_error, format_search_output, format_search_success,
    format_short_tenths, SearchOutputConfig,
};
use swegrep::types::{FileEntry, SearchError, SearchMeta, SearchOptions, SearchResult};

fn config() -> SearchOutputConfig {
    SearchOutputConfig { max_turns: 4, max_results: 10, max_commands: 8 }
}

#[test]
fn formats_file_results_and_keywords_as_plain_text() {
    let mut result = SearchResult::default();
    result.files = vec![FileEntry {
        path: "src/lib.rs".to_string(),
        full_path: "/repo/src/lib.rs".to_string(),
        ranges: vec![(1, 10), (20, 30)],
    }];
    result.rg_patterns = vec!["auth".to_string(), "auth".to_string(), "id".to_string()];

    let output = format_search_success(&result);

    assert!(output.contains("Found 1 relevant files."));
    assert!(output.contains("[1/1] /repo/src/lib.rs (L1-10, L20-30)"));
    assert!(output.contains("grep keywords: auth"));
    assert!(!output.contains("id"));
    assert!(!output.trim_start().starts_with('{'));
}

#[test]
fn formats_only_keywords_without_files() {
    let mut result = SearchResult::default();
    result.rg_patterns = vec!["needle".to_string()];

    assert_eq!(format_search_success(&result), "No files found.\n\ngrep keywords: needle");
}

#[test]
fn formats_no_files_with_raw_response() {
    let mut result = SearchResult::default();
    result.raw_response = Some("model text".to_string());

    assert_eq!(
        format_search_success(&result),
        "No relevant files found.\n\nRaw response:\nmodel text"
    );
}

fn failed() -> SearchResult {
    let mut meta = SearchMeta::default();
    meta.tree_depth = Some(2);
    meta.tree_size_tenths_kb = Some(125);
    meta.error_code = Some("TIMEOUT".to_string());
    meta.project_root = Some("/repo".to_string());
    let mut result = SearchResult::default();
    result.error = Some(SearchError::new("TIMEOUT", "request timed out"));
    result.meta = meta;
    result
}

#[test]
fn formats_error_with_diagnostics() {
    let output = format_search_error(&failed(), Some(config()));

    assert!(output.contains("Error: TIMEOUT: request timed out"));
    assert!(output.contains("[diagnostic] error_type=TIMEOUT"));
    assert!(output.contains("[diagnostic] project_path=/repo"));
    assert!(output.contains("[config] max_turns=4, max_results=10, max_commands=8"));
    assert!(output.contains("[hint] Try: reduce scope snapshot depth"));
}

#[test]
fn output_is_that_of_the_error_where_there_is_one() {
    assert_eq!(format_search_output(&failed()), format_search_error(&failed(), None));
    let empty = SearchResult::default();
    assert_eq!(format_search_output(&empty), format_search_success(&empty));
    assert_eq!(format_search_content(&failed(), config()), format_search_error(&failed(), Some(config())));
}

#[test]
fn content_ends_with_the_circumstances() {
    let mut result = SearchResult::default();
    result.meta.tree_depth = Some(3);
    result.meta.tree_size_tenths_kb = Some(40);
    result.meta.fell_back = Some(true);
    let content = format_search_content(&result, config());
    assert!(content.ends_with(
        "\n\n[config] tree_depth=3 (fell back), tree_size=4KB, max_turns=4, max_results=10"
    ));
}

#[test]
fn tenths_are_shown_as_floating_point_shows_them() {
    for tenths in [0u64, 1, 9, 10, 11, 125, 320] {
        assert_eq!(format_short_tenths(tenths), (tenths as f64 / 10.0).to_string());
    }
}

#[test]
fn options_start_with_their_defaults() {
    let options = SearchOptions::new("q", "/p");
    assert_eq!(options.max_turns, 4);
    assert_eq!(options.max_commands, 8);
    assert_eq!(options.max_results, 10);
    assert_eq!(options.tree_depth, 4);
    assert_eq!(options.timeout_ms, 30_000);
    assert_eq!(SearchError::new("A", "b").line(), "A: b");
}
