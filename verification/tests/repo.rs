use swegrep::executor::ToolExecutor;
use swegrep::listing::DirNode;
use swegrep::path_filter::GitignoreSource;
use swegrep::repo::{capped_root_manifest, get_repo_map, manifest_line, RepoMap};
use swegrep::types::MAX_TREE_BYTES;

fn file(name: &str) -> DirNode {
    DirNode {
        name: name.to_string(),
        is_file: true,
        is_dir: false,
        is_file_itself: true,
        is_dir_itself: false,
        entries: Vec::new(),
    }
}

fn dir(name: &str, entries: Vec<DirNode>) -> DirNode {
    DirNode {
        name: name.to_string(),
        is_file: false,
        is_dir: true,
        is_file_itself: false,
        is_dir_itself: true,
        entries,
    }
}

fn map_of(depth: usize, nodes: Vec<DirNode>) -> RepoMap {
    let executor = ToolExecutor::new(false, "/project", &GitignoreSource::Missing);
    get_repo_map(&executor, depth, Some(nodes))
}

fn check_untruncated() {
    let nodes = (0..60).map(|i| file(&format!("file_{i:03}.txt"))).collect();

    let result = map_of(1, nodes);
    assert!(!result.tree.contains("... (lines truncated) ..."));
    assert!(result.tree.contains("file_059.txt"));
    assert_eq!(result.size_bytes, result.tree.len());
}

#[test]
fn repo_get_repo_map_uses_untruncated_manifest() {
    check_untruncated();
}

#[test]
fn tests_get_repo_map_uses_untruncated_manifest() {
    check_untruncated();
}

fn check_fall_back() {
    let mut nodes: Vec<DirNode> = (0..6_000)
        .map(|i| file(&format!("very_long_file_name_for_scope_snapshot_padding_{i:05}.txt")))
        .collect();
    nodes.push(dir("src", vec![file("lib.rs")]));

    let result = map_of(4, nodes);

    assert!(result.size_bytes <= MAX_TREE_BYTES);
    assert!(result.fell_back);
    assert!(result.tree.starts_with("/codebase"));
    assert!(result.tree.lines().any(|line| line == "src/"));
    assert!(result.tree.ends_with("\n... (scope snapshot truncated) ..."));
    assert_eq!(result.depth, 0);
}

#[test]
fn repo_get_repo_map_falls_back_to_compact_scope_snapshot() {
    check_fall_back();
}

#[test]
fn tests_get_repo_map_falls_back_to_compact_scope_snapshot() {
    check_fall_back();
}

fn check_path_format() {
    let result = map_of(2, vec![file("Cargo.toml"), dir("src", vec![file("main.rs")])]);
    let lines = result.tree.lines().collect::<Vec<_>>();

    assert_eq!(lines[0], "/codebase");
    assert!(lines.contains(&"Cargo.toml"));
    assert!(lines.contains(&"src/"));
    assert!(lines.contains(&"src/main.rs"));
    assert!(!lines.contains(&"/codebase/src/main.rs"));
}

#[test]
fn repo_get_repo_map_uses_manifest_path_format() {
    check_path_format();
}

#[test]
fn tests_get_repo_map_uses_manifest_path_format() {
    check_path_format();
}

#[test]
fn directories_come_first_and_names_without_regard_to_case() {
    let nodes = vec![file("b.txt"), file("A.txt"), dir("z", vec![file("y")]), dir("C", vec![])];
    let result = map_of(3, nodes);
    assert_eq!(result.tree, "/codebase\nC/\nz/\nz/y\nA.txt\nb.txt");
    assert_eq!(result.depth, 3);
    assert!(!result.fell_back);
}

#[test]
fn snapshot_is_as_deep_as_fits() {
    let leaves = || (0..900).map(|i| file(&format!("a_rather_long_name_of_a_file_{i:05}"))).collect();
    let nodes = vec![dir("top", vec![dir("low", leaves())]), file("x")];
    let result = map_of(3, nodes);
    assert_eq!(result.depth, 2);
    assert!(result.fell_back);
    assert_eq!(result.tree, "/codebase\ntop/\ntop/low/\nx");
    assert_eq!(map_of(1, vec![dir("top", vec![file("y")])]).tree, "/codebase\ntop/");
}

#[test]
fn depth_zero_holds_the_root_only() {
    let result = map_of(0, vec![dir("top", vec![file("y")]), file("x")]);
    assert_eq!(result.tree, "/codebase\ntop/\nx");
    assert_eq!(result.depth, 0);
    assert!(result.fell_back);
}

#[test]
fn unreadable_root_is_said_to_be_one() {
    let executor = ToolExecutor::new(false, "/project", &GitignoreSource::Missing);
    let result = get_repo_map(&executor, 3, None);
    assert_eq!(result.tree, "/codebase\n(empty or inaccessible)");
    assert_eq!(result.size_bytes, 33);
    assert!(result.fell_back);
}

#[test]
fn hidden_and_ignored_paths_are_left_out() {
    let executor =
        ToolExecutor::new(false, "/project", &GitignoreSource::Content(b"target/\n".to_vec()));
    let nodes = vec![dir("target", vec![file("x")]), dir(".git", vec![]), file("kept")];
    assert_eq!(get_repo_map(&executor, 2, Some(nodes)).tree, "/codebase\nkept");
}

#[test]
fn manifest_lines_are_relative_with_a_slash_for_directories() {
    assert_eq!(manifest_line("/project", "/project/a/b", true), "a/b/");
    assert_eq!(manifest_line("/project", "/project/a\\b", false), "a/b");
    assert_eq!(manifest_line("/project", "/other/x", false), "/other/x");
}

#[test]
fn capped_manifest_never_takes_more_than_it_may() {
    for name_len in [1usize, 100, 1000, 32_000, 40_000] {
        let lines: Vec<String> = (0..3000).map(|_| "n".repeat(name_len)).collect();
        let capped = capped_root_manifest(&lines);
        assert!(capped.len() <= MAX_TREE_BYTES);
    }
    assert_eq!(capped_root_manifest(&vec!["a".to_string()]), "/codebase\na");
}
