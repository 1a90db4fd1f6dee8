use swegrep::answer::{
    answer_files, file_line_count, files_of_matches, normalize_answer_range, parse_answer,
    parse_ranges, ranges_of_matches, safe_codebase_rel, FileProbe,
};
use swegrep::patterns::Groups;

fn probe(path: &str, lines: usize) -> FileProbe {
    FileProbe {
        path: path.to_string(),
        full_path: format!("/project/{path}"),
        is_file: true,
        line_count: Some(lines),
    }
}

#[test]
fn repo_parse_answer_filters_path_traversal() {
    let xml = r#"
        Some thoughts first.
        <ANSWER>
          <file path="/codebase/src/main.py">
            <range>10-20</range>
            <range>30-40</range>
          </file>
          <file path="/codebase/tests/test_main.py">
            <range>1-5</range>
          </file>
          <file path="/codebase/../../etc/passwd">
            <range>1-2</range>
          </file>
        </ANSWER>
        "#;
    let probes = vec![
        probe("src/main.py", 40),
        probe("tests/test_main.py", 5),
        FileProbe {
            path: "../../etc/passwd".to_string(),
            full_path: "/etc/passwd".to_string(),
            is_file: true,
            line_count: Some(9),
        },
    ];

    let result = parse_answer(false, xml, "/project", &probes);
    assert_eq!(result.files.len(), 2);
    assert_eq!(result.files[0].path, "src/main.py");
    assert_eq!(result.files[0].ranges, vec![(10, 20), (30, 40)]);
    assert_eq!(result.files[1].path, "tests/test_main.py");
    assert_eq!(result.files[1].ranges, vec![(1, 5)]);
}

#[test]
fn parse_answer_validates_files_and_ranges() {
    let xml = r#"
        <ANSWER>
          <file path="/codebase/src/lib.rs">
            <range>4-2</range>
            <range>3-20</range>
            <range>0-2</range>
            <range>9-10</range>
          </file>
          <file path="/codebase/src/missing.rs">
            <range>1-1</range>
          </file>
          <file path="/codebase/src/empty.rs">
            <range>1-1</range>
          </file>
          <file path="/codebase/src/no_ranges.rs">
          </file>
        </ANSWER>
        "#;
    let probes =
        vec![probe("src/lib.rs", 6), probe("src/empty.rs", 0), probe("src/no_ranges.rs", 1)];

    let result = parse_answer(false, xml, "/project", &probes);

    assert_eq!(result.files.len(), 1);
    assert_eq!(result.files[0].path, "src/lib.rs");
    assert_eq!(result.files[0].ranges, vec![(2, 4), (3, 6)]);
}

#[test]
fn links_out_of_the_project_directories_and_unreadable_files_are_left_out() {
    let xml = r#"<file path='a'><range>1-1</range></file><file path='b'><range>1-1</range></file><file path='c'><range>1-1</range></file>"#;
    let mut out = probe("a", 3);
    out.full_path = "/projects/a".to_string();
    let mut directory = probe("b", 3);
    directory.is_file = false;
    let mut unreadable = probe("c", 3);
    unreadable.line_count = None;
    let result = parse_answer(false, xml, "/project", &vec![out, directory, unreadable]);
    assert!(result.files.is_empty());
    assert!(result.error.is_none());
}

#[test]
fn answer_files_name_paths_within_the_project() {
    let files = answer_files(false, r#"<file path="/codebase/a.rs">x</file><file path="../b">y</file>"#);
    assert_eq!(files.len(), 1);
    assert_eq!(files[0].path, "a.rs");
    assert_eq!(files[0].body, "x");
    assert!(answer_files(false, "nothing").is_empty());
}

#[test]
fn file_elements_are_read_at_given_matches() {
    let xml = r#"<file path="a">bc</file>"#;
    let groups: Groups = vec![Some((0, 24)), Some((12, 13)), Some((15, 17))];
    let files = files_of_matches(false, xml, &vec![groups]);
    assert_eq!(files.len(), 1);
    assert_eq!(files[0].path, "a");
    assert_eq!(files[0].body, "bc");
}

#[test]
fn ranges_are_read_at_given_matches() {
    let body = "<range>7-12</range>";
    let groups: Groups = vec![Some((0, 19)), Some((7, 8)), Some((9, 11))];
    assert_eq!(ranges_of_matches(body, &vec![groups.clone()], 10), vec![(7, 10)]);
    assert!(ranges_of_matches(body, &vec![groups], 6).is_empty());
    assert_eq!(parse_ranges(body, 10), vec![(7, 10)]);
    assert!(parse_ranges("<range>99999999999999999999999-1</range>", 10).is_empty());
}

#[test]
fn safe_paths_take_no_step_up() {
    assert_eq!(safe_codebase_rel(false, "/codebase/src/a.rs").as_deref(), Some("src/a.rs"));
    assert_eq!(safe_codebase_rel(false, "src\\a.rs").as_deref(), Some("src/a.rs"));
    assert_eq!(safe_codebase_rel(false, "//\\/x").as_deref(), Some("x"));
    assert_eq!(safe_codebase_rel(false, "/codebase"), None);
    assert_eq!(safe_codebase_rel(false, "/codebase/"), None);
    assert_eq!(safe_codebase_rel(false, "a/../b"), None);
    assert_eq!(safe_codebase_rel(false, "..\\b"), None);
    assert_eq!(safe_codebase_rel(false, "a..b").as_deref(), Some("a..b"));
    assert_eq!(safe_codebase_rel(false, "C:\\b").as_deref(), Some("C:/b"));
    assert_eq!(safe_codebase_rel(true, "C:\\b"), None);
    assert_eq!(safe_codebase_rel(true, "/codebase/c:b"), None);
    assert_eq!(safe_codebase_rel(true, "src\\a.rs").as_deref(), Some("src/a.rs"));
}

#[test]
fn ranges_are_ordered_and_cut_off_at_the_end() {
    assert_eq!(normalize_answer_range(2, 5, 10), Some((2, 5)));
    assert_eq!(normalize_answer_range(5, 2, 10), Some((2, 5)));
    assert_eq!(normalize_answer_range(5, 20, 10), Some((5, 10)));
    assert_eq!(normalize_answer_range(11, 20, 10), None);
    assert_eq!(normalize_answer_range(0, 3, 10), None);
    assert_eq!(normalize_answer_range(3, 0, 10), None);
}

#[test]
fn last_line_may_lack_its_end() {
    assert_eq!(file_line_count(b""), 0);
    assert_eq!(file_line_count(b"a"), 1);
    assert_eq!(file_line_count(b"a\n"), 1);
    assert_eq!(file_line_count(b"a\nb"), 2);
    assert_eq!(file_line_count(b"\n\n"), 2);
}
