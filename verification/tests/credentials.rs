use swegrep::credentials::{
    can_mask, classify_api_key, discover_api_key, extract_key, extract_key_from_login,
    get_config_path, get_windsurf_db_path, is_supported_api_key, key_in_config,
    load_cached_api_key, looks_truncated_api_key, mask_api_key, save_cached_api_key,
    windsurf_db_candidates, DbRead, Platform, CONFIG_KEY,
};
use swegrep::json;

fn linux() -> Platform {
    Platform {
        windows: false,
        macos: false,
        home: Some("/home/u".to_string()),
        user_profile: None,
        app_data: None,
        xdg_config_home: None,
    }
}

fn record(value: &str) -> DbRead {
    DbRead::Record { path: "/t/state.vscdb".to_string(), value: value.to_string() }
}

#[test]
fn save_and_load_cache() {
    assert_eq!(load_cached_api_key(None), None);
    let content = save_cached_api_key("sk-test-caching-key").unwrap();
    assert_eq!(load_cached_api_key(Some(&content)), Some("sk-test-caching-key".to_string()));

    let data: serde_json::Value = serde_json::from_str(&content).unwrap();
    assert_eq!(data[CONFIG_KEY], "sk-test-caching-key");
    assert_eq!(content, "{\n  \"WINDSURF_API_KEY\": \"sk-test-caching-key\"\n}\n");
}

#[test]
fn keys_with_odd_characters_are_kept() {
    for key in ["a\"b\\c", "line\nbreak", "ключ", "$eyJ.x"] {
        let content = save_cached_api_key(key).unwrap();
        assert_eq!(load_cached_api_key(Some(&content)).as_deref(), Some(key));
    }
    assert_eq!(save_cached_api_key(""), Err("API key is empty".to_string()));
}

#[test]
fn config_without_a_key_holds_none() {
    for content in ["", "{", "{}", "[]", r#"{"WINDSURF_API_KEY": ""}"#, r#"{"WINDSURF_API_KEY": 1}"#] {
        assert_eq!(load_cached_api_key(Some(content)), None);
    }
    let data = json::parse(r#"{"WINDSURF_API_KEY": "k"}"#).unwrap();
    assert_eq!(key_in_config(&data).as_deref(), Some("k"));
}

#[test]
fn extract_key_success() {
    let result = extract_key(&record(r#"{"apiKey": "sk-ws-01-testkey123456"}"#));
    assert_eq!(result.api_key.as_deref(), Some("sk-ws-01-testkey123456"));
    assert_eq!(result.db_path, "/t/state.vscdb");
    assert_eq!(result.key_type.as_deref(), Some("standard"));
    assert_eq!(result.error, None);
}

#[test]
fn extract_key_missing_record() {
    let result = extract_key(&DbRead::NoRecord { path: "/t/state.vscdb".to_string() });
    assert!(result.error.as_deref().unwrap().contains("windsurfAuthStatus record not found"));
    assert_eq!(result.hint.as_deref(), Some("Ensure Windsurf is logged in."));
}

#[test]
fn extract_key_empty_key() {
    let result = extract_key(&record(r#"{"apiKey": ""}"#));
    assert!(result.error.as_deref().unwrap().contains("apiKey field is empty"));
}

#[test]
fn extract_key_keeps_unknown_key_format() {
    let result = extract_key(&record(r#"{"apiKey": "not-a-windsurf-key"}"#));
    assert_eq!(result.api_key.as_deref(), Some("not-a-windsurf-key"));
    assert_eq!(result.key_type.as_deref(), Some("unknown"));
}

#[test]
fn extract_key_accepts_session_token_key() {
    let key = "devin-session-token$eyJhbGciOiJIUzI1NiJ9.payload.signature";
    let read = record(&format!(r#"{{"apiKey": "{key}"}}"#));

    let result = extract_key(&read);
    assert_eq!(result.api_key.as_deref(), Some(key));
    assert_eq!(result.key_type.as_deref(), Some("session-token"));
    assert_eq!(discover_api_key(&read).as_deref(), Some(key));
}

#[test]
fn truncated_session_token_detection_matches_python() {
    assert!(looks_truncated_api_key("devin-session-token"));
    assert!(looks_truncated_api_key("devin-session-token$"));
    assert!(!looks_truncated_api_key(
        "devin-session-token$eyJhbGciOiJIUzI1NiJ9.payload.signature"
    ));
    assert!(!looks_truncated_api_key("sk-ws-01-testkey123456"));
}

#[test]
fn extract_key_not_exist() {
    let path = "/nonexistent/path/to/db.vscdb".to_string();
    let result = extract_key(&DbRead::Missing { path });
    assert!(result.error.as_deref().unwrap().contains("Windsurf database not found"));
    assert_eq!(result.db_path, "/nonexistent/path/to/db.vscdb");
}

#[test]
fn every_way_to_fail_has_its_message() {
    let path = || "/p".to_string();
    let error = |read: DbRead| extract_key(&read).error.unwrap();
    assert_eq!(error(DbRead::NoPath("x".to_string())), "Cannot determine database path: x");
    assert_eq!(
        error(DbRead::OpenFailed { path: path(), message: "m".to_string() }),
        "Failed to open database: m"
    );
    assert_eq!(
        error(DbRead::QueryFailed { path: path(), message: "m".to_string() }),
        "Extraction failed: m"
    );
    assert_eq!(error(record("no json")), "windsurfAuthStatus data parse failed");
    assert_eq!(error(record("{}")), "apiKey field is empty");
    assert_eq!(error(record(r#"{"apiKey": 3}"#)), "apiKey field is not a string");
    assert_eq!(discover_api_key(&record(r#"{"apiKey": "  "}"#)), None);
    assert_eq!(
        extract_key_from_login(None, "/p").error.as_deref(),
        Some("windsurfAuthStatus data parse failed")
    );
}

#[test]
fn kinds_of_keys_are_told_apart() {
    assert_eq!(classify_api_key("sk-ws-01-x"), "standard");
    assert_eq!(classify_api_key("devin-session-token$eyJa.b"), "session-token");
    assert_eq!(classify_api_key("other$eyJa.b"), "embedded-jwt");
    assert_eq!(classify_api_key("other$eyJa"), "unknown");
    assert_eq!(classify_api_key("eyJa.b"), "unknown");
    assert!(is_supported_api_key(" k "));
    assert!(!is_supported_api_key(" \n"));
}

#[test]
fn masked_keys_show_their_ends_only() {
    assert_eq!(mask_api_key("short"), "*****");
    assert_eq!(mask_api_key("0123456789abcdef"), "****************");
    assert_eq!(mask_api_key("0123456789abcdefg"), "0123456789...bcdefg");
    assert!(can_mask("0123456789abcdefg"));
    assert!(!can_mask("012345678é9abcdefgh"));
}

#[test]
fn config_path_follows_the_system() {
    assert_eq!(get_config_path(&linux()), "/home/u/.config/swegrep/config.json");
    let windows = Platform {
        windows: true,
        user_profile: Some("C:\\Users\\u".to_string()),
        ..linux()
    };
    assert_eq!(get_config_path(&windows), "C:\\Users\\u\\.swegrep\\config.json");
    let homeless = Platform { home: None, ..linux() };
    assert_eq!(get_config_path(&homeless), "./.config/swegrep/config.json");
}

#[test]
fn databases_are_looked_for_in_their_order() {
    let users = vec!["Default".to_string(), ".hidden".to_string(), "me".to_string()];
    let candidates = windsurf_db_candidates(&linux(), &users);
    assert_eq!(
        candidates,
        vec![
            "/mnt/c/Users/Default/AppData/Roaming/Windsurf/User/globalStorage/state.vscdb",
            "/mnt/c/Users/me/AppData/Roaming/Windsurf/User/globalStorage/state.vscdb",
            "/home/u/.config/Windsurf/User/globalStorage/state.vscdb",
            "/mnt/c/Users/Default/AppData/Roaming/devin/User/globalStorage/state.vscdb",
            "/mnt/c/Users/me/AppData/Roaming/devin/User/globalStorage/state.vscdb",
            "/home/u/.config/devin/User/globalStorage/state.vscdb",
        ]
    );
    let existing = vec![candidates[5].clone(), candidates[1].clone()];
    assert_eq!(get_windsurf_db_path(&linux(), &users, &existing), Ok(candidates[1].clone()));
    assert_eq!(
        get_windsurf_db_path(&linux(), &users, &vec![candidates[5].clone()]),
        Ok(candidates[5].clone())
    );
    assert_eq!(
        get_windsurf_db_path(&linux(), &users, &Vec::new()),
        Ok(candidates[2].clone())
    );
}

#[test]
fn database_paths_follow_the_system() {
    let none: Vec<String> = Vec::new();
    let mac = Platform { macos: true, ..linux() };
    assert_eq!(
        get_windsurf_db_path(&mac, &none, &none).unwrap(),
        "/home/u/Library/Application Support/Windsurf/User/globalStorage/state.vscdb"
    );
    let windows = Platform { windows: true, app_data: Some("C:\\A".to_string()), ..linux() };
    assert_eq!(
        get_windsurf_db_path(&windows, &none, &none).unwrap(),
        "C:\\A\\Windsurf\\User\\globalStorage\\state.vscdb"
    );
    let bare = Platform { windows: true, ..linux() };
    assert_eq!(
        get_windsurf_db_path(&bare, &none, &none),
        Err("Cannot determine APPDATA path".to_string())
    );
    let xdg = Platform { xdg_config_home: Some("/x".to_string()), ..linux() };
    assert_eq!(
        get_windsurf_db_path(&xdg, &none, &none).unwrap(),
        "/x/Windsurf/User/globalStorage/state.vscdb"
    );
}
