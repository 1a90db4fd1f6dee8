use swegrep::rg::{
    bundled_rg_path, path_extensions, resolve_rg_path_from, rg_binary_name, rg_path_candidates, rg_probe_paths,
    ripgrep_not_found_message, RgResolutionError,
};

fn list(items: &[&str]) -> Vec<String> {
    items.iter().map(|item| item.to_string()).collect()
}

#[test]
fn env_path_takes_priority() {
    let files = list(&["/t/custom-rg", "/t/bundled/rg", "/t/path/rg"]);
    let resolved = resolve_rg_path_from(
        Some("/t/custom-rg"),
        Some("/t/bundled/swegrep-cli"),
        Some(&list(&["/t/path"])),
        false,
        &Vec::new(),
        &files,
    )
    .unwrap();

    assert_eq!(resolved, "/t/custom-rg");
}

#[test]
fn bundled_rg_takes_priority_over_path() {
    let bundled = format!("/t/bundled/{}", rg_binary_name(false));
    let files = list(&[bundled.as_str(), "/t/path/rg"]);
    let resolved = resolve_rg_path_from(
        None,
        Some("/t/bundled/swegrep-cli"),
        Some(&list(&["/t/path"])),
        false,
        &Vec::new(),
        &files,
    )
    .unwrap();

    assert_eq!(resolved, bundled);
}

#[test]
fn missing_rg_returns_clear_error() {
    let error = resolve_rg_path_from(None, Some("/t/swegrep-cli"), None, false, &Vec::new(), &Vec::new())
        .unwrap_err();

    assert_eq!(error, RgResolutionError::NotFound);
    assert!(error.message().contains("SWEGREP_RG_PATH"));
    assert!(error.message().contains("bundled rg"));
    assert!(error.message().contains("PATH"));
    assert_eq!(error.message(), ripgrep_not_found_message());
}

#[test]
fn invalid_env_path_is_reported() {
    let error =
        resolve_rg_path_from(Some("/t/missing-rg"), None, None, false, &Vec::new(), &Vec::new())
            .unwrap_err();

    assert_eq!(error, RgResolutionError::EnvPathNotFound("/t/missing-rg".to_string()));
    assert!(error.message().contains("SWEGREP_RG_PATH"));
}

#[test]
fn first_directory_of_the_search_path_wins() {
    let dirs = list(&["/a", "/b"]);
    let files = list(&["/b/rg", "/b/rg.exe", "/a/rg.cmd"]);
    assert_eq!(
        resolve_rg_path_from(Some(""), None, Some(&dirs), false, &Vec::new(), &files),
        Ok("/b/rg".to_string())
    );
    let dirs = list(&["C:\\a", "C:\\b\\"]);
    let files = list(&["C:\\b\\rg.exe", "C:\\a\\rg.cmd"]);
    assert_eq!(
        resolve_rg_path_from(None, None, Some(&dirs), true, &path_extensions(None), &files),
        Ok("C:\\a\\rg.cmd".to_string())
    );
}

#[test]
fn programs_on_windows_have_endings() {
    assert_eq!(rg_binary_name(true), "rg.exe");
    assert_eq!(path_extensions(None), vec![".exe", ".bat", ".cmd"]);
    assert_eq!(path_extensions(Some(";;")), vec![".exe", ".bat", ".cmd"]);
    assert_eq!(path_extensions(Some(".COM;;.EXE")), vec![".COM", ".EXE"]);
    assert_eq!(
        rg_path_candidates(true, &list(&["C:\\a"]), &list(&[".x"])),
        vec!["C:\\a\\rg", "C:\\a\\rg.x"]
    );
}

#[test]
fn all_paths_that_matter_are_probed() {
    assert_eq!(
        rg_probe_paths(
            Some("/e"),
            Some("/d/swegrep-cli"),
            Some(&list(&["/a"])),
            false,
            &Vec::new()
        ),
        vec!["/e", "/d/rg", "/a/rg"]
    );
}

#[test]
fn bundled_rg_stands_beside_the_program() {
    assert_eq!(bundled_rg_path(Some("/d/swegrep-cli"), false), Some("/d/rg".to_string()));
    assert_eq!(bundled_rg_path(Some("/d//x/swegrep-cli/"), false), Some("/d//x/rg".to_string()));
    assert_eq!(bundled_rg_path(Some("swegrep-cli"), false), Some("rg".to_string()));
    assert_eq!(bundled_rg_path(Some("/"), false), None);
    assert_eq!(
        bundled_rg_path(Some("C:\\t\\a.exe"), true),
        Some("C:\\t\\rg.exe".to_string())
    );
    assert_eq!(bundled_rg_path(Some("C:\\a.exe"), true), Some("C:\\rg.exe".to_string()));
    assert_eq!(bundled_rg_path(Some("C:a.exe"), true), Some("C:rg.exe".to_string()));
    assert_eq!(
        bundled_rg_path(Some("C:\\t/.\\a.exe"), true),
        Some("C:\\t\\rg.exe".to_string())
    );
    assert_eq!(bundled_rg_path(Some("C:\\"), true), None);
    assert_eq!(bundled_rg_path(None, true), None);
}
