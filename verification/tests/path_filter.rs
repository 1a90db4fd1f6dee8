use swegrep::path_filter::{
    include_may_match_descendant, GitignoreSource, PathFilter, PathFilterConfig,
};

const ROOT: &str = "/project";

fn filter(config: PathFilterConfig, gitignore: Option<&str>) -> PathFilter {
    let source = match gitignore {
        Some(content) => GitignoreSource::Content(content.as_bytes().to_vec()),
        None => GitignoreSource::Missing,
    };
    PathFilter::new(ROOT, config, &source)
}

fn at(path: &str) -> String {
    format!("{ROOT}/{path}")
}

/// Makes all `.gitignore` files known that decide on a path.
fn load(filter: &mut PathFilter, path: &str, files: &[(&str, &str)]) {
    for dir in filter.gitignore_dirs(&at(path)) {
        let content = files.iter().find(|(known, _)| at(known) == dir);
        let source = match content {
            Some((_, content)) => GitignoreSource::Content(content.as_bytes().to_vec()),
            None => GitignoreSource::Missing,
        };
        filter.load_gitignore(&dir, &source);
    }
}

#[test]
fn gitignore_excludes_by_default() {
    let filter = filter(PathFilterConfig::default(), Some("target/\n*.log\n"));

    assert!(!filter.is_visible(&at("target"), true));
    assert!(!filter.is_visible(&at("debug.log"), false));
    let mut filter = filter;
    load(&mut filter, "src/main.rs", &[]);
    assert!(filter.is_visible(&at("src/main.rs"), false));
}

#[test]
fn nested_gitignore_excludes_only_its_descendants() {
    let mut filter = filter(PathFilterConfig::default(), None);
    let files = [("pkg", "*.tmp\n")];
    for path in ["root.tmp", "pkg", "pkg/drop.tmp", "pkg/keep.rs"] {
        load(&mut filter, path, &files);
    }

    assert!(filter.is_visible(&at("root.tmp"), false));
    assert!(filter.is_visible(&at("pkg"), true));
    assert!(!filter.is_visible(&at("pkg/drop.tmp"), false));
    assert!(filter.is_visible(&at("pkg/keep.rs"), false));
}

#[test]
fn nested_gitignore_can_override_parent_file_pattern() {
    let mut filter = filter(PathFilterConfig::default(), Some("*.log\n"));
    let files = [("pkg", "!keep.log\n")];
    for path in ["root.log", "pkg/keep.log", "pkg/drop.log"] {
        load(&mut filter, path, &files);
    }

    assert!(!filter.is_visible(&at("root.log"), false));
    assert!(filter.is_visible(&at("pkg/keep.log"), false));
    assert!(!filter.is_visible(&at("pkg/drop.log"), false));
}

#[test]
fn include_overrides_nested_gitignore() {
    let mut config = PathFilterConfig::default();
    config.include_patterns = vec!["pkg/keep.txt".to_string()];
    let mut filter = filter(config, None);
    load(&mut filter, "pkg/keep.txt", &[("pkg", "*.txt\n")]);

    assert!(filter.is_visible(&at("pkg/keep.txt"), false));
    assert!(!filter.is_visible(&at("pkg/drop.txt"), false));
}

#[test]
fn include_overrides_gitignore_and_dot_paths() {
    let mut config = PathFilterConfig::default();
    config.include_patterns = vec!["target/keep.rs".to_string(), ".config/".to_string()];
    let mut filter = filter(config, Some("target/\n"));
    load(&mut filter, "target/keep.rs", &[]);

    assert!(filter.is_visible(&at("target/keep.rs"), false));
    assert!(filter.is_visible(&at(".config"), true));
    assert!(!filter.is_visible(&at("target/skip.rs"), false));
}

#[test]
fn exclude_overrides_include() {
    let mut config = PathFilterConfig::default();
    config.include_patterns = vec!["target/keep.rs".to_string()];
    config.exclude_patterns = vec!["target/".to_string()];
    let filter = filter(config, None);

    assert!(!filter.is_visible(&at("target/keep.rs"), false));
}

#[test]
fn disabled_filter_allows_paths() {
    let mut config = PathFilterConfig::default();
    config.enabled = false;
    config.exclude_patterns = vec!["target/".to_string()];
    let filter = filter(config, Some("target/\n"));

    assert!(filter.is_visible(&at("target/skip.rs"), false));
    assert!(filter.is_visible(&at(".cache"), true));
}

#[test]
fn invalid_patterns_are_reported() {
    let filter = filter(PathFilterConfig::with_excludes(vec!["bad\\".to_string()]), None);

    assert!(!filter.warnings().is_empty());
}

#[test]
fn unreadable_gitignore_is_reported() {
    let source = GitignoreSource::Unreadable("no access".to_string());
    let filter = PathFilter::new(ROOT, PathFilterConfig::default(), &source);
    assert_eq!(filter.warnings().len(), 1);
    assert!(filter.warnings()[0].contains("no access"));
    assert!(filter.is_visible(&at("a"), false));
}

#[test]
fn dot_paths_are_hidden_unless_included() {
    let plain = filter(PathFilterConfig::enabled(), None);
    assert!(!plain.is_visible(&at(".git"), true));
    assert!(!plain.is_visible(&at("a/.hidden/b"), false));
    assert!(plain.is_visible(&at("a.b/c"), false));
    let off = filter(PathFilterConfig::disabled(), None);
    assert!(off.is_visible(&at(".git"), true));
    assert!(!off.is_enabled());
}

#[test]
fn directories_on_the_way_to_included_paths_are_shown() {
    let mut config = PathFilterConfig::default();
    config.include_patterns = vec!["out/deep/x.txt".to_string()];
    let mut filter = filter(config, Some("out/\n"));
    load(&mut filter, "out/deep/x.txt", &[]);
    assert!(filter.is_visible(&at("out"), true));
    assert!(filter.is_visible(&at("out/deep"), true));
    assert!(!filter.is_visible(&at("out/other"), false));
    let patterns = vec!["/out/deep/**".to_string()];
    assert!(include_may_match_descendant("out", &patterns));
    assert!(!include_may_match_descendant("ou", &patterns));
}

#[test]
fn gitignore_files_are_known_once_loaded() {
    let mut filter = filter(PathFilterConfig::default(), None);
    assert!(filter.knows_dir(ROOT));
    assert!(!filter.knows_dir(&at("pkg")));
    filter.load_gitignore(&at("pkg"), &GitignoreSource::Content(b"x\n".to_vec()));
    assert!(filter.knows_dir(&at("pkg")));
    filter.load_gitignore(&at("pkg"), &GitignoreSource::Content(b"y\n".to_vec()));
    assert!(!filter.is_visible(&at("pkg/x"), false));
    assert!(filter.is_visible(&at("pkg/y"), false));
}

#[test]
fn paths_are_matched_as_they_are_written() {
    let config = PathFilterConfig {
        exclude_patterns: vec!["a/b".to_string()],
        ..PathFilterConfig::default()
    };
    let filter = filter(config, None);
    assert!(!filter.is_visible(&at("a/b"), false));
    assert!(filter.is_visible(&at("a//b"), false));
    assert!(filter.is_visible("x//b", false));
}

#[test]
fn directories_may_start_with_a_dot_and_a_slash() {
    let source = GitignoreSource::Content(b"/a.log\n".to_vec());
    let filter = PathFilter::new("./project", PathFilterConfig::default(), &source);

    assert!(!filter.is_visible("./project/a.log", false));
    assert!(filter.is_visible("./project/b.log", false));
    let filter = PathFilter::new("./project", PathFilterConfig::default(), &GitignoreSource::Missing);
    assert!(filter.is_visible("./project/a.log", false));
}

#[test]
fn filters_without_rules_take_paths_outside_the_project() {
    let off = filter(PathFilterConfig::disabled(), Some("*.log\n"));
    assert!(off.is_visible("/elsewhere/x.log", false));
    let plain = filter(PathFilterConfig::default(), Some("# nothing\n \n"));
    assert!(plain.is_visible("/elsewhere/x.log", false));
    assert!(!plain.is_visible("/elsewhere/.x", false));
}

#[test]
fn lines_before_one_that_is_no_text_count() {
    let source = GitignoreSource::Content(b"\xef\xbb\xbf*.log\r\n*.tmp\n\xff\n*.rs\n".to_vec());
    let filter = PathFilter::new(ROOT, PathFilterConfig::default(), &source);
    assert!(!filter.is_visible(&at("a.log"), false));
    assert!(!filter.is_visible(&at("a.tmp"), false));
    assert!(filter.is_visible(&at("a.rs"), false));
    assert_eq!(
        filter.warnings(),
        &vec![
            "Could not load /project/.gitignore: /project/.gitignore: line 3: \
             stream did not contain valid UTF-8"
                .to_string()
        ]
    );
}
