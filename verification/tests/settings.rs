use swegrep::credentials::{extract_key, DbRead};
use swegrep::settings::{
    parse_depth, parse_env_file, parse_env_line, parse_range, parse_turns, path_filter_switch,
    read_env_range, read_pattern_lines, report_extraction, strip_quotes, EnvEntry, SaveOutcome,
};

fn setting(key: &str, value: &str) -> EnvEntry {
    EnvEntry::Setting { key: key.to_string(), value: value.to_string() }
}

#[test]
fn extract_key_show_prints_full_key_and_source() {
    let result = extract_key(&DbRead::Record {
        path: "/t/state.vscdb".to_string(),
        value: r#"{"apiKey": "sk-ws-01-mock"}"#.to_string(),
    });

    let report = report_extraction(&result, &SaveOutcome::NotAsked, true);

    assert_eq!(report.code, 0);
    let stdout = report.out.join("\n");
    let stderr = report.err.join("\n");
    assert!(stdout.contains("Windsurf API Key: sk-ws-01-mock"));
    assert!(stdout.contains("export WINDSURF_API_KEY=\"sk-ws-01-mock\""));
    assert!(stderr.contains("Source DB:"));
}

#[test]
fn keys_are_masked_unless_shown() {
    let result = extract_key(&DbRead::Record {
        path: "/db".to_string(),
        value: r#"{"apiKey": "sk-ws-01-abcdefghijkl"}"#.to_string(),
    });
    let report = report_extraction(&result, &SaveOutcome::Saved("/c".to_string()), false);
    assert_eq!(report.out, vec!["Windsurf API Key: sk-ws-01-a...ghijkl"]);
    assert_eq!(
        report.err,
        vec!["Saved Windsurf API key to /c", "Key type: standard", "Source DB: /db"]
    );
    let failed = report_extraction(&result, &SaveOutcome::Failed("full".to_string()), false);
    assert_eq!(failed.err, vec!["Error: full"]);
    assert_eq!(failed.code, 1);
}

#[test]
fn failures_are_reported_with_their_hint() {
    let result = extract_key(&DbRead::Missing { path: "/x".to_string() });
    let report = report_extraction(&result, &SaveOutcome::NotAsked, true);
    assert_eq!(
        report.err,
        vec![
            "Error: Windsurf database not found: /x",
            "Hint: Ensure Windsurf is installed and logged in.",
        ]
    );
    assert!(report.out.is_empty());
    assert_eq!(report.code, 1);
}

#[test]
fn arguments_lie_in_their_ranges() {
    assert_eq!(parse_depth("3"), Ok(3));
    assert_eq!(parse_depth("7"), Err("depth must be between 3 and 6".to_string()));
    assert_eq!(parse_turns("5"), Ok(5));
    assert_eq!(parse_turns("6"), Err("turns must be between 3 and 5".to_string()));
    assert_eq!(parse_turns("x"), Err("turns must be an integer".to_string()));
    assert_eq!(parse_turns("-3"), Err("turns must be an integer".to_string()));
    assert_eq!(parse_range("+4", 1, 9, "n"), Ok(4));
    assert_eq!(
        parse_range("99999999999999999999999", 1, 9, "n"),
        Err("n must be an integer".to_string())
    );
}

#[test]
fn settings_out_of_range_fall_back_to_the_usual_value() {
    assert_eq!(read_env_range(Some("5"), 3, 3, 5), 5);
    assert_eq!(read_env_range(Some("6"), 3, 3, 5), 3);
    assert_eq!(read_env_range(Some("x"), 3, 3, 5), 3);
    assert_eq!(read_env_range(None, 3, 3, 5), 3);
}

#[test]
fn path_filter_is_on_unless_switched_off() {
    for off in ["0", "false", "no", "off", " OFF "] {
        assert!(!path_filter_switch(Some(off)));
    }
    for on in ["1", "", "true", "nope"] {
        assert!(path_filter_switch(Some(on)));
    }
    assert!(path_filter_switch(None));
}

#[test]
fn env_file_lines_are_settings() {
    let content = "# comment\n\nA = 1\r\nB=\"two words\"\nC='x'=y\nno setting\n=empty\nAPI_KEY=sk\nTIMEOUT=1.5\nD=\"\n";
    assert_eq!(
        parse_env_file(content),
        vec![
            setting("A", "1"),
            setting("B", "two words"),
            setting("C", "'x'=y"),
            setting("WINDSURF_API_KEY", "sk"),
            EnvEntry::TimeoutSeconds("1.5".to_string()),
            setting("D", "\""),
        ]
    );
    assert_eq!(parse_env_line("  K =  v "), Some(setting("K", "v")));
    assert_eq!(parse_env_line("#K=v"), None);
}

#[test]
fn quotes_are_stripped_in_pairs() {
    assert_eq!(strip_quotes("\"a\""), "a");
    assert_eq!(strip_quotes("'a'"), "a");
    assert_eq!(strip_quotes("\"a'"), "\"a'");
    assert_eq!(strip_quotes("\"\""), "");
    assert_eq!(strip_quotes("\""), "\"");
}

#[test]
fn pattern_files_hold_a_pattern_per_line() {
    assert_eq!(
        read_pattern_lines("target/\n\n # no\n#no\n *.log \n!keep"),
        vec!["target/", "*.log", "!keep"]
    );
}
