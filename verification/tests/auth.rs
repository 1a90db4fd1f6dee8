use base64::engine::general_purpose::URL_SAFE_NO_PAD;
use base64::Engine;
use swegrep::auth::{
    build_jwt_request, check_auth, describe_origin, get_api_key, get_jwt_exp, jwt_payload,
    needs_discovered_key, pad_base64, payload_expiry, protocol_setting, read_jwt_response,
    should_save, ws_app_version, ws_ls_version, KeyOrigin, KeySources,
};
use swegrep::json::{self, Json};
use swegrep::protobuf::ProtobufEncoder;

fn sources() -> KeySources {
    KeySources {
        passed: None,
        environment: None,
        cached: None,
        discovered: None,
        config_path: "/c/config.json".to_string(),
    }
}

fn check_jwt_exp() {
    let payload = URL_SAFE_NO_PAD.encode(br#"{"exp":12345}"#);
    assert_eq!(get_jwt_exp(&format!("header.{payload}.sig")), Some(Json::Integer(12345)));
    assert_eq!(get_jwt_exp("not-a-jwt"), None);
}

#[test]
fn auth_jwt_exp_decodes_payload() {
    check_jwt_exp();
}

#[test]
fn tests_jwt_exp_decodes_payload() {
    check_jwt_exp();
}

fn check_explicit_key() {
    let given = KeySources { passed: Some("fake-api-key".to_string()), ..sources() };
    let result = check_auth(&given, &ws_app_version(None, None), &ws_ls_version(None, None));
    assert!(result.ok);
    assert_eq!(result.jwt_source, "api-key");
}

#[test]
fn auth_check_auth_success_with_explicit_key() {
    check_explicit_key();
}

#[test]
fn tests_check_auth_success_with_explicit_key() {
    check_explicit_key();
}

#[test]
fn missing_key_is_reported_with_the_config_path() {
    let result = check_auth(&sources(), "1", "2");
    assert!(!result.ok);
    assert_eq!(result.error_code.as_deref(), Some("API_KEY_ERROR"));
    assert_eq!(
        result.error.as_deref(),
        Some("Windsurf API Key not found. Set WINDSURF_API_KEY env var, ensure Windsurf is logged in, or write it to config file: /c/config.json")
    );
    assert_eq!(result.app_version, "1");
    assert_eq!(result.ls_version, "2");
}

#[test]
fn keys_are_taken_in_their_order() {
    let all = KeySources {
        passed: Some("p".to_string()),
        environment: Some("e".to_string()),
        cached: Some("c".to_string()),
        discovered: Some("d".to_string()),
        ..sources()
    };
    let pick = |given: &KeySources| {
        let chosen = get_api_key(given).unwrap();
        (chosen.key, chosen.origin)
    };
    assert_eq!(pick(&all), ("p".to_string(), KeyOrigin::Passed));
    let all = KeySources { passed: None, ..all };
    assert_eq!(pick(&all), ("e".to_string(), KeyOrigin::Environment));
    let all = KeySources { environment: None, ..all };
    assert_eq!(pick(&all), ("c".to_string(), KeyOrigin::Cached));
    let all = KeySources { cached: None, ..all };
    assert_eq!(pick(&all), ("d".to_string(), KeyOrigin::Discovered));
}

#[test]
fn cut_off_keys_are_replaced_by_a_discovered_one() {
    let cut = || Some("devin-session-token".to_string());
    let found = KeySources { passed: cut(), discovered: Some("d".to_string()), ..sources() };
    assert_eq!(get_api_key(&found).unwrap().origin, KeyOrigin::InPlaceOfPassed);
    assert_eq!(get_api_key(&found).unwrap().key, "d");
    let alone = KeySources { passed: cut(), cached: Some("c".to_string()), ..sources() };
    assert_eq!(get_api_key(&alone).unwrap().key, "devin-session-token");
    let set = KeySources { environment: cut(), discovered: Some("d".to_string()), ..sources() };
    assert_eq!(get_api_key(&set).unwrap().origin, KeyOrigin::InPlaceOfEnvironment);
    assert!(describe_origin(KeyOrigin::InPlaceOfPassed).unwrap().contains("Passed API key"));
    assert!(describe_origin(KeyOrigin::InPlaceOfEnvironment)
        .unwrap()
        .contains("WINDSURF_API_KEY looks truncated"));
    assert!(describe_origin(KeyOrigin::Cached).unwrap().contains("cached"));
    assert_eq!(describe_origin(KeyOrigin::Passed), None);
}

#[test]
fn database_is_asked_only_where_it_matters() {
    assert!(!needs_discovered_key(Some("k"), None, None));
    assert!(needs_discovered_key(Some("devin-session-token$"), Some("e"), Some("c")));
    assert!(!needs_discovered_key(None, Some("e"), None));
    assert!(needs_discovered_key(None, Some("devin-session-token"), Some("c")));
    assert!(!needs_discovered_key(None, None, Some("c")));
    assert!(needs_discovered_key(None, None, None));
}

#[test]
fn only_discovered_keys_are_saved() {
    assert!(should_save(KeyOrigin::Discovered, true));
    assert!(!should_save(KeyOrigin::Discovered, false));
    assert!(!should_save(KeyOrigin::InPlaceOfPassed, true));
}

#[test]
fn settings_come_before_the_usual_values() {
    assert_eq!(protocol_setting(Some("a"), Some("b"), "c"), "a");
    assert_eq!(protocol_setting(None, Some("b"), "c"), "b");
    assert_eq!(protocol_setting(None, None, "c"), "c");
    assert_eq!(ws_app_version(None, None), "1.48.2");
    assert_eq!(ws_ls_version(None, None), "1.9544.35");
}

#[test]
fn payloads_are_read_through_base64_and_json() {
    let payload = URL_SAFE_NO_PAD.encode(br#"{"exp":1.5,"sub":"??>>"}"#);
    let read = jwt_payload(&format!("h.{payload}")).unwrap();
    assert_eq!(read.text_at("sub"), Some("??>>"));
    match payload_expiry(&read) {
        Some(Json::Float(number)) => assert_eq!(number.number().as_f64(), Some(1.5)),
        other => panic!("expected a number, got {other:?}"),
    }
    assert!(jwt_payload("h.!!!.s").is_none());
    assert!(jwt_payload(&format!("h.{}.s", URL_SAFE_NO_PAD.encode(b"no json"))).is_none());
    let none = json::parse(r#"{"exp":"soon"}"#).unwrap();
    assert_eq!(payload_expiry(&none), None);
}

#[test]
fn base64_is_padded_to_whole_groups() {
    assert_eq!(pad_base64(""), "");
    assert_eq!(pad_base64("a"), "a===");
    assert_eq!(pad_base64("ab"), "ab==");
    assert_eq!(pad_base64("abc"), "abc=");
    assert_eq!(pad_base64("abcd"), "abcd");
}

#[test]
fn token_request_carries_key_and_versions() {
    let mut meta = ProtobufEncoder::new();
    meta.write_string(1, "windsurf");
    meta.write_string(2, "1.48.2");
    meta.write_string(3, "sk-1");
    meta.write_string(4, "zh-cn");
    meta.write_string(7, "1.9544.35");
    meta.write_string(12, "windsurf");
    meta.write_bytes(30, b"\x00\x01");
    let mut outer = ProtobufEncoder::new();
    outer.write_message(1, &meta);
    assert_eq!(build_jwt_request("sk-1", "1.48.2", "1.9544.35"), outer.to_bytes());
}

#[test]
fn token_is_the_first_text_that_looks_like_one() {
    let mut reply = ProtobufEncoder::new();
    reply.write_string(1, "eyJnodot");
    reply.write_string(2, "eyJhbGci.x.y");
    reply.write_string(3, "eyJlater.x.y");
    assert_eq!(read_jwt_response(&reply.to_bytes()).unwrap(), "eyJhbGci.x.y");
    let error = read_jwt_response(b"").unwrap_err();
    assert_eq!(error.code, "NETWORK_ERROR");
    assert_eq!(error.message, "Failed to extract JWT from GetUserJwt response");
}
