use swegrep::json::{self, Json};
use swegrep::paths::{
    file_name, has_dot_component, join_on, join_path, normalize_on, normalize_path, parent_on,
    parent_path, starts_with_drive, starts_with_path, strip_base, tidy_path, unify,
};
use swegrep::patterns::{pattern_matches, slice_bytes};
use swegrep::text::{
    byte_len, decimal_i32, decimal_u64, join, parse_usize, replace, show_bytes, split_lines,
    split_on, trim,
};

#[test]
fn replaced_parts_do_not_overlap() {
    assert_eq!(replace("aaa", "aa", "b"), "ba");
    assert_eq!(replace("x.y.z", ".", ""), "xyz");
}

#[test]
fn splitting_and_joining_are_inverse() {
    let parts = split_on("a/b//c", '/');
    assert_eq!(parts, vec!["a", "b", "", "c"]);
    assert_eq!(join(&parts, "/"), "a/b//c");
    assert_eq!(split_on("", '/'), vec![""]);
}

#[test]
fn lines_end_with_either_line_end() {
    assert_eq!(split_lines("a\r\nb\n\nc"), vec!["a", "b", "", "c"]);
    assert!(split_lines("").is_empty());
    assert_eq!(split_lines("a\n"), vec!["a"]);
}

#[test]
fn numbers_are_written_and_read() {
    assert_eq!(decimal_u64(0), "0");
    assert_eq!(decimal_u64(18446744073709551615), "18446744073709551615");
    assert_eq!(decimal_i32(-2147483648), "-2147483648");
    assert_eq!(parse_usize("007"), Some(7));
    assert_eq!(parse_usize("+"), None);
    assert_eq!(parse_usize("1_0"), None);
}

#[test]
fn text_is_measured_and_cut_in_bytes() {
    assert_eq!(byte_len("aé漢"), 6);
    assert_eq!(slice_bytes("aé漢", 1, 3), "é");
    assert_eq!(trim("\u{3000} x\t"), "x");
}

#[test]
fn globs_match_paths() {
    assert!(pattern_matches("*.rs", "main.rs"));
    assert!(pattern_matches("**/*.rs", "src/main.rs"));
    assert!(!pattern_matches("*.rs", "main.py"));
    assert!(!pattern_matches("[", "["));
}

#[test]
fn paths_are_taken_apart_by_their_parts() {
    assert!(starts_with_path("/a/b/c", "/a/b"));
    assert!(!starts_with_path("/a/bc", "/a/b"));
    assert_eq!(strip_base("/a/b/c", "/a").as_deref(), Some("b/c"));
    assert_eq!(strip_base("/x", "/a"), None);
    assert_eq!(file_name("/a/b.txt"), "b.txt");
    assert_eq!(join_path("/a/", "b"), "/a/b");
    assert_eq!(join_path("/a", "/b"), "/b");
    assert_eq!(normalize_path("/a/./b/../../../c"), "/c");
    assert_eq!(tidy_path("/a//b/./c/"), "/a/b/c");
    assert_eq!(parent_path("/a/b").as_deref(), Some("/a"));
    assert_eq!(parent_path("/"), None);
    assert!(has_dot_component("a/.b/c"));
    assert!(!has_dot_component("a/../c"));
}

#[test]
fn paths_of_windows_are_brought_into_one_form() {
    assert_eq!(unify(true, "\\\\?\\C:\\a\\b"), "C:/a/b");
    assert_eq!(unify(true, "\\\\?\\UNC\\s"), "//?/UNC/s");
    assert_eq!(unify(true, "a\\b/c"), "a/b/c");
    assert_eq!(unify(false, "a\\b"), "a\\b");
    assert_eq!(normalize_on(true, "d:\\a\\.\\b\\..\\..\\..\\c"), "D:/c");
    assert_eq!(normalize_on(true, "D:\\a\\.."), "D:");
    assert_eq!(normalize_on(true, "D:a\\b"), "D:a/b");
    assert_eq!(normalize_on(true, "1:\\.."), "");
    assert_eq!(normalize_on(false, "d:/a/../b"), "d:/b");
    assert!(starts_with_drive("c:x"));
    assert!(!starts_with_drive("1:x"));
    assert_eq!(join_on(true, "1:", "rg"), "1:\\rg");
    assert_eq!(join_on(true, "C:", "rg"), "C:rg");
}

#[test]
fn json_is_read_and_written() {
    let value = json::parse(r#"{"b": [1, -2, true, null], "a": "x\n"}"#).unwrap();
    assert_eq!(json::print(&value), r#"{"a":"x\n","b":[1,-2,true,null]}"#);
    assert_eq!(json::parse_bytes(br#"{"a":18446744073709551615}"#).unwrap().get("a").unwrap().as_u64(), Some(u64::MAX));
    assert!(json::parse("{").is_none());
    assert!(json::parse_bytes(b"\xff").is_none());
    let object = json::object(vec![json::pair("k", json::text_value("v"))]);
    assert_eq!(json::print_pretty(&object), "{\n  \"k\": \"v\"\n}");
    assert_eq!(json::parse(&json::print_pretty(&object)), Some(object));
}

#[test]
fn later_entries_replace_earlier_ones() {
    let mut entries: Vec<(String, Json)> = Vec::new();
    json::insert(&mut entries, "b", Json::Bool(true));
    json::insert(&mut entries, "a", Json::Null);
    json::insert(&mut entries, "b", Json::Bool(false));
    assert_eq!(json::print(&Json::Object(entries)), r#"{"a":null,"b":false}"#);
}

#[test]
fn paths_are_cut_where_the_standard_library_cuts_them() {
    let pieces = ["", ".", "..", "a", ".b", "a//b", "./a", "a/.", "a/./b"];
    let mut all: Vec<String> = Vec::new();
    for first in pieces {
        for second in pieces {
            all.push(format!("{first}/{second}"));
            all.push(format!("/{first}/{second}/"));
        }
        all.push(first.to_string());
    }
    for path in &all {
        let known = std::path::Path::new(path);
        let parent = known.parent().map(|dir| dir.to_str().unwrap().to_string());
        assert_eq!(parent_path(path), parent, "parent of {path}");
        assert_eq!(parent_on(false, path), parent, "parent of {path}");
        for base in &all {
            let rest = known.strip_prefix(base).ok().map(|rel| rel.to_str().unwrap().to_string());
            assert_eq!(strip_base(path, base), rest, "{path} below {base}");
        }
    }
}

#[test]
fn bytes_are_shown_as_text() {
    assert_eq!(show_bytes("gr\u{fc}n".as_bytes()), "gr\u{fc}n");
    assert_eq!(show_bytes(b"a\xffb"), "a\u{fffd}b");
}

#[test]
fn globs_match_names_of_dots() {
    assert!(pattern_matches("*.", ".."));
    assert!(!pattern_matches("*.", "a"));
    assert!(!pattern_matches("[", "["));
}

#[test]
fn numbers_are_integers_or_fractions() {
    assert_eq!(json::parse("5"), Some(Json::Integer(5)));
    match json::parse("2.5") {
        Some(Json::Float(number)) => {
            assert_eq!(number.number().as_f64(), Some(2.5));
            assert_eq!(json::print(&Json::Float(number.clone())), "2.5");
        }
        other => panic!("expected a fraction, got {other:?}"),
    }
}
