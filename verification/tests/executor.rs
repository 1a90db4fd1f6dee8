use swegrep::executor::{
    bounded_int, read_int_env, truncate_to, DirRead, FileRead, LsEntry, OutputLimits,
    ToolExecutor, TruncationProfile,
};
use swegrep::json;
use swegrep::listing::{DirNode, TreeRead};
use swegrep::path_filter::{GitignoreSource, PathFilterConfig};
use swegrep::rg::{
    describe_start, rg_chunk_args, rg_chunk_count, rg_native_args, RgResolutionError, RgRun,
    RgStart,
};
use swegrep::tools::{plan_command, CommandPlan};
use swegrep::walk::{matches_type, GlobRead, SearchTarget};

const ROOT: &str = "/project";

fn file(name: &str) -> DirNode {
    DirNode {
        name: name.to_string(),
        is_file: true,
        is_dir: false,
        is_file_itself: true,
        is_dir_itself: false,
        entries: Vec::new(),
    }
}

fn dir(name: &str, entries: Vec<DirNode>) -> DirNode {
    DirNode {
        name: name.to_string(),
        is_file: false,
        is_dir: true,
        is_file_itself: false,
        is_dir_itself: true,
        entries,
    }
}

fn limits() -> OutputLimits {
    OutputLimits { result_max_lines: 80, readfile_max_lines: 200, line_max_chars: 300 }
}

fn ls_entries(nodes: &[DirNode]) -> DirRead {
    DirRead::Entries(
        nodes
            .iter()
            .map(|node| LsEntry {
                name: node.name.clone(),
                is_dir_itself: node.is_dir_itself,
                leads_to_dir: node.is_dir,
                size: 6,
            })
            .collect(),
    )
}

/// A project in memory: each file under its path, with its content.
struct Project {
    files: Vec<(&'static str, &'static str)>,
    dirs: Vec<&'static str>,
}

impl Project {
    fn nodes(&self, at: &str) -> Vec<DirNode> {
        let mut names: Vec<String> = Vec::new();
        let all = self.files.iter().map(|(path, _)| *path).chain(self.dirs.iter().copied());
        for path in all {
            if let Some(rest) = path.strip_prefix(at) {
                let name = rest.split('/').next().unwrap().to_string();
                if !name.is_empty() && !names.contains(&name) {
                    names.push(name);
                }
            }
        }
        names
            .into_iter()
            .map(|name| {
                let path = format!("{at}{name}");
                if self.files.iter().any(|(known, _)| *known == path) {
                    file(&name)
                } else {
                    let entries = self.nodes(&format!("{path}/"));
                    dir(&name, entries)
                }
            })
            .collect()
    }

    /// What is there at a path of the disk, where it is a directory.
    fn dir_at(&self, full_path: &str) -> Option<Vec<DirNode>> {
        let rel = full_path.strip_prefix(ROOT).unwrap().trim_start_matches('/');
        let at = if rel.is_empty() { String::new() } else { format!("{rel}/") };
        let nodes = self.nodes(&at);
        if nodes.is_empty() && !rel.is_empty() && !self.dirs.contains(&rel) {
            return None;
        }
        Some(nodes)
    }

    fn exec(&self, executor: &ToolExecutor, command: &str) -> String {
        match plan_command(&json::parse(command).unwrap()) {
            CommandPlan::Reject(message) => message,
            CommandPlan::ReadFile { file, start_line, end_line } => {
                let full = executor.resolve(&file);
                let found = self
                    .files
                    .iter()
                    .find(|(path, _)| full == format!("{ROOT}/{path}"))
                    .map(|(_, content)| FileRead::Content(content.as_bytes().to_vec()))
                    .unwrap_or(FileRead::NotAFile);
                executor.execute_readfile(&file, start_line, end_line, &found)
            }
            CommandPlan::Tree { path, levels } => {
                let found = match self.dir_at(&executor.resolve(&path)) {
                    Some(nodes) => TreeRead::Entries(nodes),
                    None => TreeRead::NotADir,
                };
                executor.execute_tree(&path, levels, found)
            }
            CommandPlan::Ls { path, long_format, all } => {
                let found = match self.dir_at(&executor.resolve(&path)) {
                    Some(nodes) => ls_entries(&nodes),
                    None => DirRead::NotADir,
                };
                executor.execute_ls(&path, long_format, all, found)
            }
            CommandPlan::Glob { pattern, path, type_filter } => {
                let found = match self.dir_at(&executor.resolve(&path)) {
                    Some(nodes) => GlobRead::Entries(nodes),
                    None => GlobRead::NotADir,
                };
                executor.execute_glob(&pattern, &path, &type_filter, &found)
            }
            CommandPlan::Rg { path, included, excluded, .. } => {
                let full = executor.resolve(&path);
                let target = match self.dir_at(&full) {
                    Some(nodes) => SearchTarget::Dir(nodes),
                    None => SearchTarget::Missing,
                };
                executor
                    .rg_search_files(&full, &target, included.as_ref(), excluded.as_ref())
                    .join("\n")
            }
        }
    }
}

fn plain() -> ToolExecutor {
    ToolExecutor::new(false, ROOT, &GitignoreSource::Missing)
}

#[test]
fn executor_paths_are_clamped_to_root() {
    let executor = plain();

    assert_eq!(executor.resolve("/codebase"), "/project");
    assert_eq!(executor.resolve("/codebase/sub/file.py"), "/project/sub/file.py");
    assert_eq!(executor.resolve("/codebase/../../etc/passwd"), "/project");
    assert_eq!(executor.resolve("/codebase/sub/../../../etc/passwd"), "/project");
    assert_eq!(executor.resolve("/etc/passwd"), "/project");
}

#[test]
fn executor_paths_are_clamped_to_root_on_windows() {
    for root in ["C:\\work\\project", "c:/work/x/../project/", "\\\\?\\C:\\work\\project"] {
        let executor = ToolExecutor::new(true, root, &GitignoreSource::Missing);

        assert_eq!(executor.root(), "C:/work/project");
        assert_eq!(executor.resolve("/codebase"), "C:/work/project");
        assert_eq!(executor.resolve("/codebase/sub/file.py"), "C:/work/project/sub/file.py");
        assert_eq!(executor.resolve("/codebase/sub\\file.py"), "C:/work/project/sub/file.py");
        assert_eq!(executor.resolve("/codebase/a\\..\\b"), "C:/work/project/b");
        assert_eq!(executor.resolve("c:\\work\\project\\b"), "C:/work/project/b");
        assert_eq!(executor.resolve("C:\\..\\work\\project\\b"), "C:/work/project/b");
        for out in [
            "/codebase/..\\..\\x",
            "/codebase/sub\\..\\..\\..\\x",
            "/codebase/\\x",
            "/codebase/D:\\x",
            "/codebase/C:x",
            "\\\\server\\share\\x",
            "C:\\work\\other",
            "\\work\\project",
        ] {
            assert_eq!(executor.resolve(out), "C:/work/project", "{out}");
        }
    }
    let executor = plain();
    assert_eq!(executor.resolve("/codebase/..\\..\\x"), "/project/..\\..\\x");
}

fn check_readfile() {
    let executor = plain();
    let project =
        Project { files: vec![("test.txt", "line1\nline2\nline3\nline4\nline5")], dirs: vec![] };

    let res = project.exec(&executor, r#"{"type": "readfile", "file": "/codebase/test.txt"}"#);
    assert!(res.contains("1:line1\n2:line2\n3:line3\n4:line4\n5:line5"));

    let res = project.exec(
        &executor,
        r#"{"type": "readfile", "file": "/codebase/test.txt", "start_line": 2, "end_line": 4}"#,
    );
    assert!(res.contains("2:line2\n3:line3\n4:line4"));
    assert!(!res.contains("1:line1"));
    assert!(!res.contains("5:line5"));

    assert!(project
        .exec(&executor, r#"{"type": "readfile", "file": "/codebase/nonexistent.txt"}"#)
        .contains("Error: file not found"));
}

#[test]
fn exec_command_readfile_supports_full_file_and_ranges() {
    check_readfile();
}

#[test]
fn readfile_supports_full_file_and_ranges() {
    check_readfile();
}

fn check_tree() {
    let executor = plain();
    let project = Project {
        files: vec![("dir1/file1.py", ""), ("dir2/sub/file2.py", ""), ("file3.txt", "")],
        dirs: vec![".cache"],
    };

    let res =
        project.exec(&executor, r#"{"type": "tree", "path": "/codebase", "levels": 2}"#);
    assert!(res.contains("dir1"));
    assert!(res.contains("file1.py"));
    assert!(res.contains("dir2"));
    assert!(res.contains("sub"));
    assert!(res.contains("file3.txt"));
    assert!(!res.contains("file2.py"));
    assert!(!res.contains(".cache"));
    assert_eq!(
        res,
        "/codebase\n├── dir1\n│   └── file1.py\n├── dir2\n│   └── sub\n└── file3.txt"
    );
}

#[test]
fn exec_command_tree_respects_depth_and_dotfile_filter() {
    check_tree();
}

#[test]
fn tree_respects_depth_and_dotfile_filter() {
    check_tree();
}

fn check_ls() {
    let executor = plain();
    let project = Project { files: vec![("file1.txt", "")], dirs: vec!["dir1"] };

    let res = project.exec(&executor, r#"{"type": "ls", "path": "/codebase"}"#);
    assert!(res.contains("dir1\nfile1.txt"));

    let res =
        project.exec(&executor, r#"{"type": "ls", "path": "/codebase", "long_format": true}"#);
    assert!(res.contains("total 2"));
    assert!(res.contains("dir1"));
    assert!(res.contains("file1.txt"));
}

#[test]
fn exec_command_ls_supports_short_and_long_formats() {
    check_ls();
}

#[test]
fn ls_supports_short_and_long_formats() {
    check_ls();
}

fn check_glob() {
    let executor = plain();
    let project = Project {
        files: vec![("dir1/test1.py", ""), ("dir2/test2.py", ""), ("other.txt", "")],
        dirs: vec![],
    };

    let res = project.exec(
        &executor,
        r#"{"type": "glob", "pattern": "**/test*.py", "path": "/codebase", "type_filter": "all"}"#,
    );
    assert!(res.contains("/codebase/dir1/test1.py"));
    assert!(res.contains("/codebase/dir2/test2.py"));
    assert!(!res.contains("other.txt"));
    assert_eq!(res, "/codebase/dir1/test1.py\n/codebase/dir2/test2.py");
}

#[test]
fn exec_command_glob_supports_recursive_patterns() {
    check_glob();
}

#[test]
fn glob_supports_recursive_patterns() {
    check_glob();
}

fn filtered_project() -> Project {
    Project {
        files: vec![
            ("ignored/keep.txt", "needle"),
            ("ignored/skip.txt", "needle"),
            ("logs/keep.log", "needle"),
            ("logs/drop.log", "needle"),
            (".cache/visible.txt", "needle"),
            (".secret/hidden.txt", "needle"),
            ("visible.txt", "needle"),
        ],
        dirs: vec![],
    }
}

fn filtered_executor() -> ToolExecutor {
    let mut config = PathFilterConfig::default();
    config.include_patterns = vec![
        "ignored/keep.txt".to_string(),
        "logs/keep.log".to_string(),
        ".cache/visible.txt".to_string(),
    ];
    config.exclude_patterns = vec!["logs/drop.log".to_string()];
    ToolExecutor::with_limits_and_filter(
        false,
        ROOT,
        limits(),
        config,
        &GitignoreSource::Content(b"ignored/\n*.log\n".to_vec()),
    )
}

fn check_filter_on_tree_glob_and_rg() {
    let executor = filtered_executor();
    let project = filtered_project();

    let tree = project.exec(&executor, r#"{"type": "tree", "path": "/codebase", "levels": 3}"#);
    assert!(tree.contains("visible.txt"));
    assert!(tree.contains("keep.txt"));
    assert!(tree.contains("keep.log"));
    assert!(!tree.contains("skip.txt"));
    assert!(!tree.contains("drop.log"));

    let glob = project.exec(
        &executor,
        r#"{"type": "glob", "pattern": "**/*", "path": "/codebase", "type_filter": "file"}"#,
    );
    assert!(glob.contains("/codebase/visible.txt"));
    assert!(glob.contains("/codebase/ignored/keep.txt"));
    assert!(glob.contains("/codebase/logs/keep.log"));
    assert!(glob.contains("/codebase/.cache/visible.txt"));
    assert!(!glob.contains("/codebase/ignored/skip.txt"));
    assert!(!glob.contains("/codebase/logs/drop.log"));

    let searched =
        project.exec(&executor, r#"{"type": "rg", "pattern": "needle", "path": "/codebase"}"#);
    assert!(searched.contains("/project/visible.txt"));
    assert!(searched.contains("/project/ignored/keep.txt"));
    assert!(searched.contains("/project/logs/keep.log"));
    assert!(searched.contains("/project/.cache/visible.txt"));
    assert!(!searched.contains("/project/ignored/skip.txt"));
    assert!(!searched.contains("/project/logs/drop.log"));
}

#[test]
fn path_filter_applies_to_tree_glob_and_rg() {
    check_filter_on_tree_glob_and_rg();
}

#[test]
fn path_filter_applies_to_all_local_tools() {
    check_filter_on_tree_glob_and_rg();
    let executor = filtered_executor();
    let project = filtered_project();

    assert!(project
        .exec(&executor, r#"{"type": "readfile", "file": "/codebase/ignored/keep.txt"}"#)
        .contains("1:needle"));
    assert_eq!(
        project.exec(&executor, r#"{"type": "readfile", "file": "/codebase/ignored/skip.txt"}"#),
        "Error: file not visible: /codebase/ignored/skip.txt"
    );
    assert_eq!(
        project.exec(&executor, r#"{"type": "readfile", "file": "/codebase/logs/drop.log"}"#),
        "Error: file not visible: /codebase/logs/drop.log"
    );
    assert_eq!(
        project.exec(&executor, r#"{"type": "readfile", "file": "/codebase/.secret/hidden.txt"}"#),
        "Error: file not visible: /codebase/.secret/hidden.txt"
    );

    let logs = project.exec(&executor, r#"{"type": "ls", "path": "/codebase/logs"}"#);
    assert!(logs.contains("keep.log"));
    assert!(!logs.contains("drop.log"));

    let root = project.exec(&executor, r#"{"type": "ls", "path": "/codebase"}"#);
    assert!(!root.contains(".cache"));
    assert!(!root.contains(".secret"));

    let root_all =
        project.exec(&executor, r#"{"type": "ls", "path": "/codebase", "all": true}"#);
    assert!(root_all.contains(".cache"));
    assert!(!root_all.contains(".secret"));
}

fn found(stdout: &str) -> RgRun {
    RgRun::Exited { code: Some(0), stdout: stdout.as_bytes().to_vec(), stderr: Vec::new() }
}

fn check_rg_names_the_file() {
    let executor = plain();
    let project = Project { files: vec![("only.txt", "needle")], dirs: vec![] };
    let files = project.exec(&executor, r#"{"type": "rg", "pattern": "needle", "path": "/codebase"}"#);
    assert_eq!(files, "/project/only.txt");
    let args = rg_chunk_args("needle", &vec![files], 0);
    assert!(args.contains(&"--with-filename".to_string()));
    assert_eq!(args[args.len() - 3..], ["--", "needle", "/project/only.txt"]);

    let result = executor.rg_filtered(&vec![found("/project/only.txt:1:needle\n")]);

    assert!(result.contains("/codebase/only.txt:1:needle"));
}

#[test]
fn exec_command_rg_includes_filename_for_single_file_results() {
    check_rg_names_the_file();
}

#[test]
fn rg_includes_filename_for_single_file_results() {
    check_rg_names_the_file();
}

fn check_disabled_filter_is_native() {
    let mut config = PathFilterConfig::default();
    config.exclude_patterns = vec!["visible.txt".to_string()];
    let mut disabled_config = config.clone();
    disabled_config.enabled = false;
    let missing = GitignoreSource::Missing;
    let mut filtered = ToolExecutor::with_limits_and_filter(false, ROOT, limits(), config, &missing);
    let mut native =
        ToolExecutor::with_limits_and_filter(false, ROOT, limits(), disabled_config, &missing);

    assert_eq!(filtered.execute_rg("needle", "/codebase", true), RgStart::Filtered);
    let target = SearchTarget::Dir(vec![file("visible.txt")]);
    assert!(filtered.rg_search_files("/project", &target, None, None).is_empty());
    assert_eq!(filtered.rg_filtered(&Vec::new()), "(no matches)");

    assert_eq!(native.execute_rg("needle", "/codebase", true), RgStart::Native);
    assert!(native
        .rg_native(&found("/project/visible.txt:1:needle\n"))
        .contains("/codebase/visible.txt:1:needle"));
}

#[test]
fn commands_disabled_path_filter_uses_native_rg_traversal() {
    check_disabled_filter_is_native();
}

#[test]
fn tests_disabled_path_filter_uses_native_rg_traversal() {
    check_disabled_filter_is_native();
}

#[test]
fn disabled_path_filter_allows_readfile_and_ls_entries() {
    let mut config = PathFilterConfig::default();
    config.enabled = false;
    config.exclude_patterns = vec!["visible.txt".to_string()];
    let executor =
        ToolExecutor::with_limits_and_filter(false, ROOT, limits(), config, &GitignoreSource::Missing);
    let project = Project { files: vec![("visible.txt", "needle")], dirs: vec![] };

    assert!(project
        .exec(&executor, r#"{"type": "readfile", "file": "/codebase/visible.txt"}"#)
        .contains("1:needle"));
    assert!(project
        .exec(&executor, r#"{"type": "ls", "path": "/codebase"}"#)
        .contains("visible.txt"));
}

#[test]
fn exec_command_supports_all_subcommands() {
    let executor = plain();
    let project = Project {
        files: vec![("test.txt", "hello world"), ("src/main.rs", "fn main() {}")],
        dirs: vec![],
    };

    assert!(project
        .exec(&executor, r#"{"type": "readfile", "file": "/codebase/test.txt"}"#)
        .contains("1:hello world"));
    assert!(project
        .exec(&executor, r#"{"type": "rg", "pattern": "hello", "path": "/codebase"}"#)
        .contains("/project/test.txt"));
    assert!(project
        .exec(&executor, r#"{"type": "tree", "path": "/codebase", "levels": 1}"#)
        .contains("src"));
    assert!(project
        .exec(&executor, r#"{"type": "ls", "path": "/codebase"}"#)
        .contains("test.txt"));
    assert!(project
        .exec(
            &executor,
            r#"{"type": "glob", "pattern": "**/*.rs", "path": "/codebase", "type_filter": "file"}"#
        )
        .contains("src/main.rs"));
}

#[test]
fn searches_remember_their_patterns() {
    let mut executor = plain();
    assert_eq!(executor.execute_rg("", "/codebase", true), RgStart::NoPattern);
    assert_eq!(executor.execute_rg("x", "", true), RgStart::NoPath);
    assert!(executor.collected_rg_patterns().is_empty());
    assert_eq!(executor.execute_rg("x", "/codebase/none", false), RgStart::Missing);
    assert_eq!(executor.execute_rg("y", "/codebase", true), RgStart::Filtered);
    assert_eq!(*executor.collected_rg_patterns(), vec!["x", "y"]);
    assert_eq!(describe_start(RgStart::NoPattern, "p"), "Error: missing or invalid pattern");
    assert_eq!(describe_start(RgStart::NoPath, "p"), "Error: missing or invalid path");
    assert_eq!(describe_start(RgStart::Missing, "p"), "Error: path does not exist: p");
}

#[test]
fn failed_runs_of_rg_say_what_went_wrong() {
    let executor = plain();
    let exited = |code: Option<i32>, stderr: &str| RgRun::Exited {
        code,
        stdout: b"ignored".to_vec(),
        stderr: stderr.as_bytes().to_vec(),
    };
    assert_eq!(executor.rg_native(&exited(Some(1), "noise")), "(no matches)");
    assert_eq!(executor.rg_native(&exited(Some(2), "bad in /project/x")), "bad in /codebase/x");
    assert_eq!(executor.rg_native(&exited(Some(2), "")), "Error: exit status 2");
    assert_eq!(executor.rg_native(&exited(None, "")), "Error: exit status -1");
    assert_eq!(executor.rg_native(&RgRun::Failed("boom".to_string())), "Error: boom");
    assert!(executor.rg_native(&RgRun::NotFound).contains("SWEGREP_RG_PATH"));
    let unresolved = RgRun::Unresolved(RgResolutionError::EnvPathNotFound("/x".to_string()));
    assert!(executor.rg_native(&unresolved).contains("SWEGREP_RG_PATH=/x."));
}

#[test]
fn runs_are_put_together_up_to_the_first_that_failed() {
    let executor = plain();
    let none = || RgRun::Exited { code: Some(1), stdout: Vec::new(), stderr: Vec::new() };
    let bad = || RgRun::Exited { code: Some(2), stdout: Vec::new(), stderr: b"bad".to_vec() };
    assert_eq!(executor.rg_filtered(&vec![none(), none()]), "(no matches)");
    assert_eq!(
        executor.rg_filtered(&vec![found("/project/a:1:x\n"), none(), found("/project/b:2:y\n")]),
        "/codebase/a:1:x\n/codebase/b:2:y\n"
    );
    assert_eq!(executor.rg_filtered(&vec![found("a\n"), bad(), found("b\n")]), "bad");
    let odd = RgRun::Exited { code: Some(0), stdout: b"x\xffy".to_vec(), stderr: Vec::new() };
    assert_eq!(executor.rg_native(&odd), "x\u{fffd}y");
}

#[test]
fn rg_arguments_follow_the_command() {
    let included = vec!["*.rs".to_string()];
    let excluded = vec!["target".to_string(), "x".to_string()];
    assert_eq!(
        rg_native_args("p", "/project", Some(&included), Some(&excluded)),
        vec![
            "--no-config",
            "--no-heading",
            "--with-filename",
            "-n",
            "--max-count",
            "50",
            "--glob",
            "*.rs",
            "--glob",
            "!target",
            "--glob",
            "!x",
            "--",
            "p",
            "/project",
        ]
    );
    let files: Vec<String> = (0..401).map(|i| format!("f{i}")).collect();
    assert_eq!(rg_chunk_count(&files), 3);
    assert_eq!(rg_chunk_args("p", &files, 0).len(), 210);
    assert_eq!(rg_chunk_args("p", &files, 1)[10], "f200");
    assert_eq!(
        rg_chunk_args("p", &files, 2),
        vec![
            "--no-config",
            "--no-ignore",
            "--hidden",
            "--no-heading",
            "--with-filename",
            "-n",
            "--max-count",
            "50",
            "--",
            "p",
            "f400",
        ]
    );
}

#[test]
fn searched_files_follow_the_globs_of_the_command() {
    let executor = plain();
    let target = || {
        SearchTarget::Dir(vec![dir("src", vec![file("a.rs"), file("b.txt")]), file("c.rs")])
    };
    let rs = vec!["*.rs".to_string()];
    let src = vec!["src/**".to_string()];
    assert_eq!(
        executor.rg_search_files("/project", &target(), Some(&rs), None),
        vec!["/project/c.rs", "/project/src/a.rs"]
    );
    assert_eq!(
        executor.rg_search_files("/project", &target(), Some(&rs), Some(&src)),
        vec!["/project/c.rs"]
    );
    assert_eq!(
        executor.rg_search_files("/project/c.rs", &SearchTarget::File, None, None),
        vec!["/project/c.rs"]
    );
    assert!(executor.is_visible_for_rg("/project/src/a.rs", Some(&rs), None));
}

#[test]
fn numbers_from_settings_are_kept_in_their_bounds() {
    assert_eq!(bounded_int(None, 80, 1, 100), 80);
    assert_eq!(bounded_int(Some(500), 80, 1, 100), 100);
    assert_eq!(bounded_int(Some(0), 80, 1, 100), 1);
    assert_eq!(read_int_env(Some("12"), 80, 1, 100), 12);
    assert_eq!(read_int_env(Some("many"), 80, 1, 100), 80);
    assert_eq!(read_int_env(None, 80, 1, 100), 80);
}

#[test]
fn long_output_is_cut_off() {
    assert_eq!(truncate_to("a\nb", 5, 5), "a\nb");
    let shown = truncate_to("a\nb\nc\nd", 2, 5);
    assert!(shown.starts_with("a\nb"));
    assert!(shown.contains("truncated"));
    assert!(!shown.contains('d') || !shown.ends_with('d'));
    assert_eq!(truncate_to("abcdefgh", 5, 3).chars().take(3).collect::<String>(), "abc");
    let executor = plain();
    let many: String = (0..300).map(|i| format!("{i}\n")).collect();
    assert!(executor.truncate_text(&many, TruncationProfile::General).lines().count() <= 81);
    assert!(
        executor.truncate_text(&many, TruncationProfile::ReadfileExpanded).lines().count() <= 201
    );
}

#[test]
fn missing_paths_are_refused() {
    let executor = plain();
    assert_eq!(
        executor.execute_readfile("", None, None, &FileRead::NotAFile),
        "Error: missing or invalid file path"
    );
    assert_eq!(
        executor.execute_ls("", false, false, DirRead::NotADir),
        "Error: missing or invalid path"
    );
    assert_eq!(
        executor.execute_ls("/codebase/x", false, false, DirRead::NotADir),
        "Error: dir not found: /codebase/x"
    );
    assert_eq!(
        executor.execute_tree("/codebase/x", None, TreeRead::NotADir),
        "Error: dir not found: /codebase/x"
    );
    assert_eq!(
        executor.execute_glob("", "/codebase", "all", &GlobRead::NotADir),
        "Error: missing or invalid pattern"
    );
    assert_eq!(
        executor.execute_glob("*", "/codebase/x", "all", &GlobRead::NotADir),
        "Error: dir not found: /codebase/x"
    );
    assert_eq!(
        executor.execute_glob("*.nope", "/codebase", "all", &GlobRead::Entries(vec![file("a")])),
        "(no matches)"
    );
}

#[test]
fn types_of_entries_are_told_apart() {
    assert!(matches_type(true, false, "file"));
    assert!(!matches_type(false, true, "file"));
    assert!(matches_type(false, true, "directory"));
    assert!(!matches_type(true, false, "directory"));
    assert!(matches_type(true, false, "all"));
}

#[test]
fn output_speaks_of_the_virtual_root() {
    let executor = plain();
    assert_eq!(executor.remap("see /project/a and /project"), "see /codebase/a and /codebase");
    assert_eq!(executor.root(), "/project");
    assert!(executor.path_filter_enabled());
}

#[test]
fn glob_shows_a_hundred_visible_paths_at_most() {
    let executor = plain();
    let mut nodes: Vec<DirNode> = (0..150).map(|i| file(&format!("f{i:03}.rs"))).collect();
    nodes.push(file(".hidden.rs"));
    let out = executor.execute_glob("*.rs", "/codebase", "file", &GlobRead::Entries(nodes));
    assert_eq!(out.lines().next(), Some("/codebase/f000.rs"));
    assert!(!out.contains("f100.rs"));
    assert!(!out.contains(".hidden.rs"));
}
