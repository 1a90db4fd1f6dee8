//! Searching with `rg`: where it is found, how it is called, and what its
//! runs show.
use crate::executor::{self, ToolExecutor, Tools, TruncationProfile};
use crate::output;
use crate::paths;
use crate::text;
use crate::walk;
use vstd::prelude::*;

verus! {

/// The number of files that one run looks at.
pub const RG_FILE_CHUNK_SIZE: usize = 200;

/// Why `rg` was not found.
#[derive(Debug, Clone, PartialEq, Eq)]
pub enum RgResolutionError {
    EnvPathNotFound(String),
    NotFound,
}

/// What is said where `rg` is nowhere.
pub open spec fn rg_missing_text() -> Seq<char> {
    "Error: ripgrep ('rg') is required but was not found. Provide SWEGREP_RG_PATH, place bundled rg next to swegrep-cli, or install rg in PATH."@
}

/// What is said where `rg` is nowhere.
pub fn ripgrep_not_found_message() -> (r: &'static str)
    ensures
        r@ == rg_missing_text(),
{
    "Error: ripgrep ('rg') is required but was not found. Provide SWEGREP_RG_PATH, place bundled rg next to swegrep-cli, or install rg in PATH."
}

/// What is said of an error.
pub open spec fn resolution_text(error: RgResolutionError) -> Seq<char> {
    match error {
        RgResolutionError::EnvPathNotFound(path) =>
            "Error: ripgrep ('rg') was not found at SWEGREP_RG_PATH="@ + path@
            + ".\nHint: provide a valid SWEGREP_RG_PATH, place bundled rg next to swegrep-cli, or install rg in PATH."@,
        RgResolutionError::NotFound => rg_missing_text(),
    }
}

impl RgResolutionError {
    /// What is said of the error.
    pub fn message(&self) -> (r: String)
        ensures
            r@ == resolution_text(*self),
    {
        match self {
            RgResolutionError::EnvPathNotFound(path) => {
                let mut out = text::copied(
                    "Error: ripgrep ('rg') was not found at SWEGREP_RG_PATH=",
                );
                out.append(path);
                out.append(
                    ".\nHint: provide a valid SWEGREP_RG_PATH, place bundled rg next to swegrep-cli, or install rg in PATH.",
                );
                out
            },
            RgResolutionError::NotFound => text::copied(ripgrep_not_found_message()),
        }
    }
}

/// The name of the `rg` program that comes with this one.
pub open spec fn bundled_name(windows: bool) -> Seq<char> {
    if windows {
        "rg.exe"@
    } else {
        "rg"@
    }
}

/// The name of the `rg` program that comes with this one.
pub fn rg_binary_name(windows: bool) -> (r: &'static str)
    ensures
        r@ == bundled_name(windows),
{
    if windows {
        "rg.exe"
    } else {
        "rg"
    }
}

/// The nonempty ones among some pieces.
pub open spec fn nonempty(pieces: Seq<Seq<char>>) -> Seq<Seq<char>>
    decreases pieces.len(),
{
    if pieces.len() == 0 {
        seq![]
    } else if pieces.last().len() > 0 {
        nonempty(pieces.drop_last()).push(pieces.last())
    } else {
        nonempty(pieces.drop_last())
    }
}

/// The endings that programs can have.
pub open spec fn extension_list(setting: Option<Seq<char>>) -> Seq<Seq<char>> {
    let listed = match setting {
        Some(raw) => nonempty(text::split(raw, ';')),
        None => seq![],
    };
    if listed.len() == 0 {
        seq![".exe"@, ".bat"@, ".cmd"@]
    } else {
        listed
    }
}

/// The endings that programs can have: those of the setting, which semicolons
/// part, or else the usual ones.
pub fn path_extensions(setting: Option<&str>) -> (r: Vec<String>)
    ensures
        text::views(r@) == extension_list(text::opt_str_view(setting)),
{
    let mut out: Vec<String> = Vec::new();
    assert(text::views(out@) =~= seq![]);
    if let Some(raw) = setting {
        let pieces = text::split_on(raw, ';');
        let ghost all = text::views(pieces@);
        let mut i: usize = 0;
        assert(all.take(0) =~= seq![]);
        while i < pieces.len()
            invariant
                i <= pieces@.len(),
                all == text::views(pieces@),
                text::views(out@) == nonempty(all.take(i as int)),
            decreases pieces@.len() - i,
        {
            let ghost before = text::views(out@);
            proof {
                assert(all.take(i + 1).drop_last() =~= all.take(i as int));
                assert(all.take(i + 1).last() == pieces@[i as int]@);
            }
            if !pieces[i].as_str().is_empty() {
                out.push(pieces[i].clone());
                assert(text::views(out@) =~= before.push(pieces@[i as int]@));
            }
            i += 1;
        }
        assert(all.take(i as int) =~= all);
    }
    if out.len() == 0 {
        out.push(text::copied(".exe"));
        out.push(text::copied(".bat"));
        out.push(text::copied(".cmd"));
        assert(text::views(out@) =~= seq![".exe"@, ".bat"@, ".cmd"@]);
    }
    out
}

/// The programs in a directory that can be `rg`.
pub open spec fn dir_candidates(windows: bool, dir: Seq<char>, endings: Seq<Seq<char>>) -> Seq<Seq<char>> {
    seq![paths::below_on(windows, dir, "rg"@)] + Seq::new(
        endings.len(),
        |i: int| paths::below_on(windows, dir, "rg"@ + endings[i]),
    )
}

/// The programs in the directories that can be `rg`, in the order in which
/// they are looked for.
pub open spec fn path_candidates(
    windows: bool,
    dirs: Seq<Seq<char>>,
    endings: Seq<Seq<char>>,
) -> Seq<Seq<char>>
    decreases dirs.len(),
{
    if dirs.len() == 0 {
        seq![]
    } else {
        path_candidates(windows, dirs.drop_last(), endings) + dir_candidates(
            windows,
            dirs.last(),
            endings,
        )
    }
}

/// The programs in a directory that can be `rg`.
fn candidates_in(windows: bool, dir: &str, endings: &Vec<String>) -> (r: Vec<String>)
    ensures
        text::views(r@) == dir_candidates(windows, dir@, text::views(endings@)),
{
    let mut out: Vec<String> = Vec::new();
    out.push(paths::join_on(windows, dir, "rg"));
    let ghost first = paths::below_on(windows, dir@, "rg"@);
    let ghost ends = text::views(endings@);
    let mut i: usize = 0;
    while i < endings.len()
        invariant
            i <= endings@.len(),
            ends == text::views(endings@),
            out@.len() == i + 1,
            out@[0]@ == first,
            forall|k: int|
                0 < k <= i ==> (#[trigger] out@[k])@ == paths::below_on(windows, dir@, "rg"@ + ends[k - 1]),
        decreases endings@.len() - i,
    {
        let mut name = text::copied("rg");
        name.append(&endings[i]);
        assert(ends[i as int] == endings@[i as int]@);
        out.push(paths::join_on(windows, dir, &name));
        i += 1;
    }
    assert(text::views(out@) =~= dir_candidates(windows, dir@, ends));
    out
}

/// The programs in the directories that can be `rg`, in the order in which
/// they are looked for.
pub fn rg_path_candidates(windows: bool, dirs: &Vec<String>, endings: &Vec<String>) -> (r: Vec<String>)
    ensures
        text::views(r@) == path_candidates(windows, text::views(dirs@), text::views(endings@)),
{
    let ghost all = text::views(dirs@);
    let ghost ends = text::views(endings@);
    let mut out: Vec<String> = Vec::new();
    let mut i: usize = 0;
    assert(text::views(out@) =~= seq![]);
    assert(all.take(0) =~= seq![]);
    while i < dirs.len()
        invariant
            i <= dirs@.len(),
            all == text::views(dirs@),
            ends == text::views(endings@),
            text::views(out@) == path_candidates(windows, all.take(i as int), ends),
        decreases dirs@.len() - i,
    {
        let ghost before = text::views(out@);
        proof {
            assert(all.take(i + 1).drop_last() =~= all.take(i as int));
            assert(all.take(i + 1).last() == dirs@[i as int]@);
        }
        let mut more = candidates_in(windows, &dirs[i], endings);
        let ghost added = text::views(more@);
        out.append(&mut more);
        assert(text::views(out@) =~= before + added);
        i += 1;
    }
    assert(all.take(i as int) =~= all);
    out
}

/// The first of the candidates that is a file.
pub open spec fn first_existing(candidates: Seq<Seq<char>>, files: Seq<Seq<char>>) -> Option<
    Seq<char>,
>
    decreases candidates.len(),
{
    if candidates.len() == 0 {
        None
    } else if files.contains(candidates[0]) {
        Some(candidates[0])
    } else {
        first_existing(candidates.skip(1), files)
    }
}

/// The first of the candidates that is a file.
pub fn find_existing(candidates: &Vec<String>, files: &Vec<String>) -> (r: Option<String>)
    ensures
        text::opt_view(r) == first_existing(text::views(candidates@), text::views(files@)),
{
    let ghost all = text::views(candidates@);
    let mut i: usize = 0;
    assert(all.skip(0) =~= all);
    while i < candidates.len()
        invariant
            i <= candidates@.len(),
            all == text::views(candidates@),
            first_existing(all.skip(i as int), text::views(files@)) == first_existing(
                all,
                text::views(files@),
            ),
        decreases candidates@.len() - i,
    {
        assert(all.skip(i as int)[0] == candidates@[i as int]@);
        if output::holds(files, &candidates[i]) {
            return Some(candidates[i].clone());
        }
        assert(all.skip(i as int).skip(1) =~= all.skip(i + 1));
        i += 1;
    }
    None
}

/// Where the `rg` program that comes with this one would stand.
pub open spec fn bundled_path(current_exe: Option<Seq<char>>, windows: bool) -> Option<Seq<char>> {
    match current_exe {
        Some(exe) => match paths::dir_on(windows, exe) {
            Some(dir) => Some(paths::below_on(windows, dir, bundled_name(windows))),
            None => None,
        },
        None => None,
    }
}

/// Where the `rg` program that comes with this one would stand.
pub fn bundled_rg_path(current_exe: Option<&str>, windows: bool) -> (r: Option<String>)
    ensures
        text::opt_view(r) == bundled_path(text::opt_str_view(current_exe), windows),
{
    match current_exe {
        Some(exe) => match paths::parent_on(windows, exe) {
            Some(dir) => Some(paths::join_on(windows, &dir, rg_binary_name(windows))),
            None => None,
        },
        None => None,
    }
}

/// What `rg` resolves to.
#[verifier::ext_equal]
pub enum Resolved {
    Found(Seq<char>),
    EnvPathNotFound(Seq<char>),
    NotFound,
}

/// What the outcome of a resolution says.
pub open spec fn resolved_view(r: Result<String, RgResolutionError>) -> Resolved {
    match r {
        Ok(path) => Resolved::Found(path@),
        Err(RgResolutionError::EnvPathNotFound(path)) => Resolved::EnvPathNotFound(path@),
        Err(RgResolutionError::NotFound) => Resolved::NotFound,
    }
}

/// Which `rg` program is used, given the paths that are files. One that is set
/// is used or nothing; else the one that comes with this program, and else the
/// first in the search path.
pub open spec fn resolution(
    env_path: Option<Seq<char>>,
    current_exe: Option<Seq<char>>,
    search_dirs: Option<Seq<Seq<char>>>,
    windows: bool,
    endings: Seq<Seq<char>>,
    files: Seq<Seq<char>>,
) -> Resolved {
    match env_path {
        Some(path) if path.len() > 0 => if files.contains(path) {
            Resolved::Found(path)
        } else {
            Resolved::EnvPathNotFound(path)
        },
        _ => match bundled_path(current_exe, windows) {
            Some(path) if files.contains(path) => Resolved::Found(path),
            _ => match search_dirs {
                Some(dirs) => match first_existing(
                    path_candidates(
                        windows,
                        dirs,
                        if windows {
                            endings
                        } else {
                            seq![]
                        },
                    ),
                    files,
                ) {
                    Some(path) => Resolved::Found(path),
                    None => Resolved::NotFound,
                },
                None => Resolved::NotFound,
            },
        },
    }
}

/// Which `rg` program is used, given the paths that are files.
pub fn resolve_rg_path_from(
    env_path: Option<&str>,
    current_exe: Option<&str>,
    search_dirs: Option<&Vec<String>>,
    windows: bool,
    endings: &Vec<String>,
    files: &Vec<String>,
) -> (r: Result<String, RgResolutionError>)
    ensures
        resolved_view(r) == resolution(
            text::opt_str_view(env_path),
            text::opt_str_view(current_exe),
            walk::list_view(search_dirs),
            windows,
            text::views(endings@),
            text::views(files@),
        ),
{
    if let Some(path) = env_path {
        if !path.is_empty() {
            if output::holds(files, path) {
                return Ok(text::copied(path));
            }
            return Err(RgResolutionError::EnvPathNotFound(text::copied(path)));
        }
    }
    if let Some(path) = bundled_rg_path(current_exe, windows) {
        if output::holds(files, &path) {
            return Ok(path);
        }
    }
    match search_dirs {
        Some(dirs) => {
            let none: Vec<String> = Vec::new();
            assert(text::views(none@) =~= seq![]);
            let candidates = if windows {
                rg_path_candidates(windows, dirs, endings)
            } else {
                rg_path_candidates(windows, dirs, &none)
            };
            match find_existing(&candidates, files) {
                Some(path) => Ok(path),
                None => Err(RgResolutionError::NotFound),
            }
        },
        None => Err(RgResolutionError::NotFound),
    }
}

/// The paths that decide which `rg` program is used: whether they are files
/// must be known.
pub fn rg_probe_paths(
    env_path: Option<&str>,
    current_exe: Option<&str>,
    search_dirs: Option<&Vec<String>>,
    windows: bool,
    endings: &Vec<String>,
) -> (r: Vec<String>)
    ensures
        text::views(r@) == (match text::opt_str_view(env_path) {
            Some(path) => seq![path],
            None => seq![],
        }) + (match bundled_path(text::opt_str_view(current_exe), windows) {
            Some(path) => seq![path],
            None => seq![],
        }) + (match walk::list_view(search_dirs) {
            Some(dirs) => path_candidates(windows, dirs, text::views(endings@)),
            None => seq![],
        }),
{
    let mut out: Vec<String> = Vec::new();
    if let Some(path) = env_path {
        out.push(text::copied(path));
    }
    assert(text::views(out@) =~= match text::opt_str_view(env_path) {
        Some(path) => seq![path],
        None => seq![],
    });
    let ghost first = text::views(out@);
    if let Some(path) = bundled_rg_path(current_exe, windows) {
        out.push(path);
        assert(text::views(out@) =~= first + seq![path@]);
    } else {
        assert(text::views(out@) =~= first + seq![]);
    }
    let ghost second = text::views(out@);
    if let Some(dirs) = search_dirs {
        let mut more = rg_path_candidates(windows, dirs, endings);
        let ghost added = text::views(more@);
        out.append(&mut more);
        assert(text::views(out@) =~= second + added);
    } else {
        assert(text::views(out@) =~= second + seq![]);
    }
    out
}

/// A program that is set is the only one that is ever used.
pub proof fn law_set_path_takes_priority(
    env_path: Seq<char>,
    current_exe: Option<Seq<char>>,
    search_dirs: Option<Seq<Seq<char>>>,
    windows: bool,
    endings: Seq<Seq<char>>,
    files: Seq<Seq<char>>,
)
    requires
        env_path.len() > 0,
    ensures
        resolution(Some(env_path), current_exe, search_dirs, windows, endings, files) == (
        if files.contains(env_path) {
            Resolved::Found(env_path)
        } else {
            Resolved::EnvPathNotFound(env_path)
        }),
{
}

/// Without a program that is set, the one that comes with this program is used
/// before any in the search path.
pub proof fn law_bundled_rg_comes_before_search_path(
    current_exe: Option<Seq<char>>,
    search_dirs: Option<Seq<Seq<char>>>,
    windows: bool,
    endings: Seq<Seq<char>>,
    files: Seq<Seq<char>>,
)
    requires
        bundled_path(current_exe, windows) matches Some(path) && files.contains(path),
    ensures
        resolution(None, current_exe, search_dirs, windows, endings, files) == Resolved::Found(
            bundled_path(current_exe, windows).unwrap(),
        ),
{
}

/// The program that is used is a file.
pub proof fn law_resolved_program_is_a_file(
    env_path: Option<Seq<char>>,
    current_exe: Option<Seq<char>>,
    search_dirs: Option<Seq<Seq<char>>>,
    windows: bool,
    endings: Seq<Seq<char>>,
    files: Seq<Seq<char>>,
)
    ensures
        resolution(env_path, current_exe, search_dirs, windows, endings, files) matches
            Resolved::Found(path) ==> files.contains(path),
{
    if let Some(dirs) = search_dirs {
        lemma_first_existing(
            path_candidates(
                windows,
                dirs,
                if windows {
                    endings
                } else {
                    seq![]
                },
            ),
            files,
        );
    }
}

/// What is found among candidates is a file.
proof fn lemma_first_existing(candidates: Seq<Seq<char>>, files: Seq<Seq<char>>)
    ensures
        first_existing(candidates, files) matches Some(path) ==> files.contains(path),
    decreases candidates.len(),
{
    if candidates.len() > 0 {
        lemma_first_existing(candidates.skip(1), files);
    }
}

/// What became of a run of `rg`.
#[derive(Debug, Clone)]
pub enum RgRun {
    Unresolved(RgResolutionError),
    NotFound,
    Failed(String),
    Exited { code: Option<i32>, stdout: Vec<u8>, stderr: Vec<u8> },
}

/// The code with which a run ended; minus one where there is none.
pub open spec fn exit_code(code: Option<i32>) -> int {
    match code {
        Some(code) => code as int,
        None => -1,
    }
}

/// What a run shows that ends a search: one that did not end with matches or
/// without any.
pub open spec fn failed_run(tools: Tools, run: RgRun) -> Option<Seq<char>> {
    match run {
        RgRun::Unresolved(error) => Some(resolution_text(error)),
        RgRun::NotFound => Some(rg_missing_text()),
        RgRun::Failed(message) => Some("Error: "@ + message@),
        RgRun::Exited { code, stdout, stderr } => if exit_code(code) == 0 || exit_code(code) == 1 {
            None
        } else if stderr@.len() > 0 {
            Some(
                executor::shown(
                    tools,
                    executor::remapped(tools.root, text::shown_text(stderr@)),
                    TruncationProfile::General,
                ),
            )
        } else {
            Some("Error: exit status "@ + text::signed_decimal(exit_code(code)))
        },
    }
}

/// What a run adds to the output of a search.
pub open spec fn run_text(run: RgRun) -> Seq<char> {
    match run {
        RgRun::Exited { code: Some(0), stdout, .. } => text::shown_text(stdout@),
        _ => seq![],
    }
}

/// What a search shows that is one run.
pub open spec fn native_output(tools: Tools, run: RgRun) -> Seq<char> {
    match failed_run(tools, run) {
        Some(message) => message,
        None => match run {
            RgRun::Exited { code: Some(0), .. } => executor::shown(
                tools,
                executor::remapped(tools.root, run_text(run)),
                TruncationProfile::General,
            ),
            _ => "(no matches)"@,
        },
    }
}

/// What the runs of a search show, with `acc` as the output so far. The first
/// run that fails ends it.
pub open spec fn runs_output(tools: Tools, acc: Seq<char>, runs: Seq<RgRun>) -> Seq<char>
    decreases runs.len(),
{
    if runs.len() == 0 {
        if acc.len() == 0 {
            "(no matches)"@
        } else {
            executor::shown(
                tools,
                executor::remapped(tools.root, acc),
                TruncationProfile::General,
            )
        }
    } else {
        match failed_run(tools, runs[0]) {
            Some(message) => message,
            None => runs_output(tools, acc + run_text(runs[0]), runs.skip(1)),
        }
    }
}

impl ToolExecutor {
    /// What a run shows that ends a search.
    pub fn rg_failure(&self, run: &RgRun) -> (r: Option<String>)
        ensures
            text::opt_view(r) == failed_run(self@, *run),
    {
        match run {
            RgRun::Unresolved(error) => Some(error.message()),
            RgRun::NotFound => Some(text::copied(ripgrep_not_found_message())),
            RgRun::Failed(message) => {
                let mut out = text::copied("Error: ");
                out.append(message);
                Some(out)
            },
            RgRun::Exited { code, stdout: _, stderr } => {
                let status: i32 = match code {
                    Some(code) => *code,
                    None => -1,
                };
                if status == 0 || status == 1 {
                    return None;
                }
                if stderr.len() > 0 {
                    let raw = text::show_bytes(stderr);
                    let mapped = self.remap(&raw);
                    return Some(self.truncate_text(&mapped, TruncationProfile::General));
                }
                let mut out = text::copied("Error: exit status ");
                let digits = text::decimal_i32(status);
                out.append(&digits);
                Some(out)
            },
        }
    }

    /// What a search shows that is one run.
    pub fn rg_native(&self, run: &RgRun) -> (r: String)
        ensures
            r@ == native_output(self@, *run),
    {
        if let Some(message) = self.rg_failure(run) {
            return message;
        }
        if let RgRun::Exited { code: Some(0), stdout, stderr: _ } = run {
            let raw = text::show_bytes(stdout);
            let mapped = self.remap(&raw);
            return self.truncate_text(&mapped, TruncationProfile::General);
        }
        text::copied("(no matches)")
    }

    /// What the runs of a search show, one for each chunk of its files.
    pub fn rg_filtered(&self, runs: &Vec<RgRun>) -> (r: String)
        ensures
            r@ == runs_output(self@, seq![], runs@),
    {
        let mut all_stdout = String::new();
        let mut i: usize = 0;
        assert(runs@.skip(0) =~= runs@);
        assert(all_stdout@ =~= seq![]);
        while i < runs.len()
            invariant
                i <= runs@.len(),
                runs_output(self@, all_stdout@, runs@.skip(i as int)) == runs_output(
                    self@,
                    seq![],
                    runs@,
                ),
            decreases runs@.len() - i,
        {
            let ghost rest = runs@.skip(i as int);
            let ghost before = all_stdout@;
            assert(rest[0] == runs@[i as int]);
            assert(rest.skip(1) =~= runs@.skip(i + 1));
            if let Some(message) = self.rg_failure(&runs[i]) {
                return message;
            }
            if let RgRun::Exited { code: Some(0), stdout, stderr: _ } = &runs[i] {
                let raw = text::show_bytes(stdout);
                all_stdout.append(&raw);
            } else {
                assert(before + seq![] =~= before);
            }
            i += 1;
        }
        if all_stdout.as_str().is_empty() {
            text::copied("(no matches)")
        } else {
            let mapped = self.remap(&all_stdout);
            self.truncate_text(&mapped, TruncationProfile::General)
        }
    }
}

/// The arguments of `rg` that come before the pattern, for each glob.
pub open spec fn glob_args(globs: Seq<Seq<char>>, mark: Seq<char>) -> Seq<Seq<char>>
    decreases globs.len(),
{
    if globs.len() == 0 {
        seq![]
    } else {
        glob_args(globs.drop_last(), mark) + seq!["--glob"@, mark + globs.last()]
    }
}

/// The arguments for a search that `rg` walks through by itself.
pub open spec fn native_args(
    pattern: Seq<char>,
    path: Seq<char>,
    included: Option<Seq<Seq<char>>>,
    excluded: Option<Seq<Seq<char>>>,
) -> Seq<Seq<char>> {
    seq!["--no-config"@, "--no-heading"@, "--with-filename"@, "-n"@, "--max-count"@, "50"@] + (
    match included {
        Some(globs) => glob_args(globs, ""@),
        None => seq![],
    }) + (match excluded {
        Some(globs) => glob_args(globs, "!"@),
        None => seq![],
    }) + seq!["--"@, pattern, path]
}

/// The arguments for a search through the given files.
pub open spec fn file_args(pattern: Seq<char>, files: Seq<Seq<char>>) -> Seq<Seq<char>> {
    seq![
        "--no-config"@,
        "--no-ignore"@,
        "--hidden"@,
        "--no-heading"@,
        "--with-filename"@,
        "-n"@,
        "--max-count"@,
        "50"@,
        "--"@,
        pattern,
    ] + files
}

/// Adds the arguments for each glob.
fn push_glob_args(args: &mut Vec<String>, globs: &Vec<String>, mark: &str)
    ensures
        text::views(final(args)@) == text::views(old(args)@) + glob_args(
            text::views(globs@),
            mark@,
        ),
{
    let ghost before = text::views(args@);
    let ghost all = text::views(globs@);
    let mut i: usize = 0;
    assert(all.take(0) =~= seq![]);
    assert(text::views(args@) =~= before + glob_args(all.take(0), mark@));
    while i < globs.len()
        invariant
            i <= globs@.len(),
            all == text::views(globs@),
            text::views(args@) == before + glob_args(all.take(i as int), mark@),
        decreases globs@.len() - i,
    {
        let ghost so_far = text::views(args@);
        proof {
            assert(all.take(i + 1).drop_last() =~= all.take(i as int));
            assert(all.take(i + 1).last() == globs@[i as int]@);
        }
        let mut glob = text::copied(mark);
        glob.append(&globs[i]);
        args.push(text::copied("--glob"));
        args.push(glob);
        assert(text::views(args@) =~= so_far + seq!["--glob"@, mark@ + globs@[i as int]@]);
        i += 1;
        assert(text::views(args@) =~= before + glob_args(all.take(i as int), mark@));
    }
    assert(all.take(i as int) =~= all);
}

/// The arguments for a search that `rg` walks through by itself.
pub fn rg_native_args(
    pattern: &str,
    path: &str,
    included: Option<&Vec<String>>,
    excluded: Option<&Vec<String>>,
) -> (r: Vec<String>)
    ensures
        text::views(r@) == native_args(
            pattern@,
            path@,
            walk::list_view(included),
            walk::list_view(excluded),
        ),
{
    let mut args: Vec<String> = Vec::new();
    args.push(text::copied("--no-config"));
    args.push(text::copied("--no-heading"));
    args.push(text::copied("--with-filename"));
    args.push(text::copied("-n"));
    args.push(text::copied("--max-count"));
    args.push(text::copied("50"));
    let ghost head = text::views(args@);
    assert(head =~= seq![
        "--no-config"@,
        "--no-heading"@,
        "--with-filename"@,
        "-n"@,
        "--max-count"@,
        "50"@,
    ]);
    if let Some(globs) = included {
        push_glob_args(&mut args, globs, "");
    } else {
        assert(text::views(args@) =~= head + seq![]);
    }
    let ghost middle = text::views(args@);
    if let Some(globs) = excluded {
        push_glob_args(&mut args, globs, "!");
    } else {
        assert(text::views(args@) =~= middle + seq![]);
    }
    let ghost front = text::views(args@);
    args.push(text::copied("--"));
    args.push(text::copied(pattern));
    args.push(text::copied(path));
    assert(text::views(args@) =~= front + seq!["--"@, pattern@, path@]);
    args
}

/// The files of the chunk with index `chunk`.
pub open spec fn chunk_files(files: Seq<Seq<char>>, chunk: int) -> Seq<Seq<char>> {
    let from = chunk * 200;
    let to = if from + 200 < files.len() {
        from + 200
    } else {
        files.len() as int
    };
    files.subrange(from, to)
}

/// The number of chunks that files make.
pub open spec fn chunk_count(files: nat) -> nat {
    (files + 199) / 200
}

/// The number of chunks that files make.
pub fn rg_chunk_count(files: &Vec<String>) -> (r: usize)
    ensures
        r == chunk_count(files@.len()),
{
    let n = files.len();
    n / RG_FILE_CHUNK_SIZE + if n % RG_FILE_CHUNK_SIZE == 0 {
        0
    } else {
        1
    }
}

/// The arguments for a search through the chunk with index `chunk` of the files.
pub fn rg_chunk_args(pattern: &str, files: &Vec<String>, chunk: usize) -> (r: Vec<String>)
    requires
        chunk < chunk_count(files@.len()),
    ensures
        text::views(r@) == file_args(pattern@, chunk_files(text::views(files@), chunk as int)),
{
    let mut args: Vec<String> = Vec::new();
    args.push(text::copied("--no-config"));
    args.push(text::copied("--no-ignore"));
    args.push(text::copied("--hidden"));
    args.push(text::copied("--no-heading"));
    args.push(text::copied("--with-filename"));
    args.push(text::copied("-n"));
    args.push(text::copied("--max-count"));
    args.push(text::copied("50"));
    args.push(text::copied("--"));
    args.push(text::copied(pattern));
    let ghost head = text::views(args@);
    assert(head =~= file_args(pattern@, seq![]));
    let total = files.len();
    let from = chunk * RG_FILE_CHUNK_SIZE;
    let to = if total - from > RG_FILE_CHUNK_SIZE {
        from + RG_FILE_CHUNK_SIZE
    } else {
        total
    };
    let ghost all = text::views(files@);
    let mut i: usize = from;
    assert(text::views(args@) =~= head + all.subrange(from as int, from as int));
    while i < to
        invariant
            from <= i <= to <= files@.len(),
            all == text::views(files@),
            text::views(args@) == head + all.subrange(from as int, i as int),
        decreases to - i,
    {
        let ghost before = text::views(args@);
        args.push(files[i].clone());
        assert(text::views(args@) =~= before.push(all[i as int]));
        i += 1;
        assert(text::views(args@) =~= head + all.subrange(from as int, i as int));
    }
    assert(text::views(args@) =~= file_args(pattern@, chunk_files(all, chunk as int)));
    args
}

/// The chunks of the files, one after the other, are the files.
pub proof fn law_chunks_cover_files(files: Seq<Seq<char>>, n: int)
    requires
        0 <= n < files.len(),
    ensures
        0 <= n / 200 < chunk_count(files.len()),
        0 <= n % 200 < chunk_files(files, n / 200).len() <= 200,
        chunk_files(files, n / 200)[n % 200] == files[n],
{
}

/// What a search does before it runs.
#[derive(Debug, Clone, Copy, PartialEq, Eq, Structural)]
pub enum RgStart {
    NoPattern,
    NoPath,
    Missing,
    Native,
    Filtered,
}

/// What a search does before it runs: without a pattern, a path, or anything
/// at that path it does not run.
pub open spec fn rg_start(tools: Tools, pattern: Seq<char>, path: Seq<char>, exists: bool) -> RgStart {
    if pattern.len() == 0 {
        RgStart::NoPattern
    } else if path.len() == 0 {
        RgStart::NoPath
    } else if !exists {
        RgStart::Missing
    } else if !tools.filter.enabled {
        RgStart::Native
    } else {
        RgStart::Filtered
    }
}

/// What is said of a search that does not run.
pub open spec fn start_text(start: RgStart, path: Seq<char>) -> Seq<char> {
    match start {
        RgStart::NoPattern => "Error: missing or invalid pattern"@,
        RgStart::NoPath => "Error: missing or invalid path"@,
        RgStart::Missing => "Error: path does not exist: "@ + path,
        _ => ""@,
    }
}

impl ToolExecutor {
    /// Starts a search: remembers its pattern, and tells how it runs. One
    /// without a pattern or without a path is not remembered.
    pub fn execute_rg(&mut self, pattern: &str, path: &str, exists: bool) -> (r: RgStart)
        ensures
            r == rg_start(old(self)@, pattern@, path@, exists),
            final(self).filter_well_formed() == old(self).filter_well_formed(),
            final(self)@ == if pattern@.len() == 0 || path@.len() == 0 {
                old(self)@
            } else {
                Tools { rg_patterns: old(self)@.rg_patterns.push(pattern@), ..old(self)@ }
            },
    {
        if pattern.is_empty() {
            return RgStart::NoPattern;
        }
        if path.is_empty() {
            return RgStart::NoPath;
        }
        self.collect_rg_pattern(pattern);
        if !exists {
            return RgStart::Missing;
        }
        if !self.path_filter_enabled() {
            RgStart::Native
        } else {
            RgStart::Filtered
        }
    }
}

/// What is said of a search that does not run.
pub fn describe_start(start: RgStart, path: &str) -> (r: String)
    ensures
        r@ == start_text(start, path@),
{
    match start {
        RgStart::NoPattern => text::copied("Error: missing or invalid pattern"),
        RgStart::NoPath => text::copied("Error: missing or invalid path"),
        RgStart::Missing => {
            let mut out = text::copied("Error: path does not exist: ");
            out.append(path);
            out
        },
        _ => text::copied(""),
    }
}

/// The globs of a search reach the program one by one, each behind its option.
proof fn lemma_glob_args(globs: Seq<Seq<char>>, mark: Seq<char>)
    ensures
        glob_args(globs, mark).len() == 2 * globs.len(),
        forall|i: int|
            0 <= i < globs.len() ==> #[trigger] glob_args(globs, mark)[2 * i] == "--glob"@,
        forall|i: int|
            0 <= i < globs.len() ==> #[trigger] glob_args(globs, mark)[2 * i + 1] == mark
                + globs[i],
    decreases globs.len(),
{
    if globs.len() > 0 {
        let front = globs.drop_last();
        lemma_glob_args(front, mark);
        let before = glob_args(front, mark);
        let all = glob_args(globs, mark);
        let n = globs.len() - 1;
        assert forall|i: int| 0 <= i < globs.len() implies #[trigger] all[2 * i] == "--glob"@ by {
            if i < n {
                assert(all[2 * i] == before[2 * i]);
            }
        }
        assert forall|i: int| 0 <= i < globs.len() implies #[trigger] all[2 * i + 1] == mark
            + globs[i] by {
            if i < n {
                assert(all[2 * i + 1] == before[2 * i + 1]);
                assert(front[i] == globs[i]);
            }
        }
    }
}

/// A search that the program filters by itself hands it every include glob as it is and
/// every exclude glob behind an exclamation mark; then, behind the mark that ends the
/// options, the pattern and the path.
pub proof fn law_native_search_gets_all_globs(
    pattern: Seq<char>,
    path: Seq<char>,
    included: Seq<Seq<char>>,
    excluded: Seq<Seq<char>>,
)
    ensures
        ({
            let args = native_args(pattern, path, Some(included), Some(excluded));
            let n = 6 + 2 * included.len() as int;
            let m = n + 2 * excluded.len() as int;
            &&& args.len() == m + 3
            &&& args[m] == "--"@ && args[m + 1] == pattern && args[m + 2] == path
            &&& forall|i: int|
                #![trigger included[i]]
                0 <= i < included.len() ==> args[6 + 2 * i] == "--glob"@ && args[7 + 2 * i]
                    == included[i]
            &&& forall|i: int|
                #![trigger excluded[i]]
                0 <= i < excluded.len() ==> args[n + 2 * i] == "--glob"@ && args[n + 2 * i + 1]
                    == seq!['!'] + excluded[i]
        }),
        native_args(pattern, path, None, None) == native_args(
            pattern,
            path,
            Some(seq![]),
            Some(seq![]),
        ),
{
    lemma_glob_args(included, ""@);
    lemma_glob_args(excluded, "!"@);
    reveal_strlit("");
    reveal_strlit("!");
    assert(""@ =~= seq![]);
    assert("!"@ =~= seq!['!']);
    let args = native_args(pattern, path, Some(included), Some(excluded));
    let n = 6 + 2 * included.len() as int;
    assert forall|i: int|
        #![trigger included[i]]
        0 <= i < included.len() implies args[6 + 2 * i] == "--glob"@ && args[7 + 2 * i]
        == included[i] by {
        assert(args[6 + 2 * i] == glob_args(included, ""@)[2 * i]);
        assert(args[7 + 2 * i] == glob_args(included, ""@)[2 * i + 1]);
        assert(""@ + included[i] =~= included[i]);
    }
    assert forall|i: int|
        #![trigger excluded[i]]
        0 <= i < excluded.len() implies args[n + 2 * i] == "--glob"@ && args[n + 2 * i + 1]
        == seq!['!'] + excluded[i] by {
        assert(args[n + 2 * i] == glob_args(excluded, "!"@)[2 * i]);
        assert(args[n + 2 * i + 1] == glob_args(excluded, "!"@)[2 * i + 1]);
    }
    assert(native_args(pattern, path, None, None) =~= native_args(
        pattern,
        path,
        Some(seq![]),
        Some(seq![]),
    ));
}

/// A search of chosen files hands the program the pattern and then every file, in order,
/// behind the mark that ends the options.
pub proof fn law_filtered_search_gets_its_files(pattern: Seq<char>, files: Seq<Seq<char>>)
    ensures
        ({
            let args = file_args(pattern, files);
            let n = args.len() - files.len();
            &&& args.skip(n) == files
            &&& args[n - 1] == pattern
            &&& args[n - 2] == "--"@
            &&& forall|i: int| 0 <= i < n - 2 ==> #[trigger] args[i] != "--"@
        }),
{
    let args = file_args(pattern, files);
    let n = args.len() - files.len();
    assert(args.skip(n) =~= files);
    reveal_strlit("--");
    reveal_strlit("--no-config");
    reveal_strlit("--no-ignore");
    reveal_strlit("--hidden");
    reveal_strlit("--no-heading");
    reveal_strlit("--with-filename");
    reveal_strlit("-n");
    reveal_strlit("--max-count");
    reveal_strlit("50");
    assert("--"@.len() == 2 && "--no-config"@.len() == 11 && "--no-ignore"@.len() == 11);
    assert("--hidden"@.len() == 8 && "--no-heading"@.len() == 12);
    assert("--with-filename"@.len() == 15 && "--max-count"@.len() == 11);
    assert("-n"@[1] == 'n' && "--"@[1] == '-' && "50"@[0] == '5' && "--"@[0] == '-');
    assert forall|i: int| 0 <= i < n - 2 implies #[trigger] args[i] != "--"@ by {
        assert(i == 0 || i == 1 || i == 2 || i == 3 || i == 4 || i == 5 || i == 6 || i == 7);
    }
}

/// Whether a run of the program ended as it should: with matches or without.
pub open spec fn ended_well(run: RgRun) -> bool {
    run matches RgRun::Exited { code, .. } && (code == Some(0i32) || code == Some(1i32))
}

/// What a run found: what it printed, where it ended with matches.
pub open spec fn found_by(run: RgRun) -> Seq<char> {
    match run {
        RgRun::Exited { code, stdout, .. } => if code == Some(0i32) {
            text::shown_text(stdout@)
        } else {
            seq![]
        },
        _ => seq![],
    }
}

/// What all runs of a search found is shown, one after the other, with the root of the
/// project as `/codebase`. Where none found anything it says so.
pub proof fn law_matches_of_all_runs_are_shown(tools: Tools, runs: Seq<RgRun>)
    requires
        forall|i: int| 0 <= i < runs.len() ==> ended_well(#[trigger] runs[i]),
    ensures
        ({
            let found = runs.map_values(|run: RgRun| found_by(run)).flatten();
            runs_output(tools, seq![], runs) == (if found.len() == 0 {
                "(no matches)"@
            } else {
                executor::truncated(
                    text::replaced(found, tools.root, "/codebase"@),
                    tools.limits.result_max_lines as nat,
                    tools.limits.line_max_chars as nat,
                )
            })
        }),
{
    lemma_runs_output(tools, seq![], runs);
    let found = runs.map_values(|run: RgRun| found_by(run)).flatten();
    assert(seq![] + found =~= found);
}

/// What runs found is gathered run by run.
proof fn lemma_runs_output(tools: Tools, acc: Seq<char>, runs: Seq<RgRun>)
    requires
        forall|i: int| 0 <= i < runs.len() ==> ended_well(#[trigger] runs[i]),
    ensures
        ({
            let found = acc + runs.map_values(|run: RgRun| found_by(run)).flatten();
            runs_output(tools, acc, runs) == (if found.len() == 0 {
                "(no matches)"@
            } else {
                executor::shown(
                    tools,
                    executor::remapped(tools.root, found),
                    TruncationProfile::General,
                )
            })
        }),
    decreases runs.len(),
{
    let found = |run: RgRun| found_by(run);
    let all = runs.map_values(found);
    if runs.len() == 0 {
        assert(all =~= seq![]);
        assert(acc + all.flatten() =~= acc);
    } else {
        assert(ended_well(runs[0]));
        let rest = runs.skip(1);
        assert forall|i: int| 0 <= i < rest.len() implies ended_well(#[trigger] rest[i]) by {
            assert(rest[i] == runs[i + 1]);
        }
        lemma_runs_output(tools, acc + found_by(runs[0]), rest);
        assert(all.drop_first() =~= rest.map_values(found));
        assert(all.first() == found_by(runs[0]));
        assert(run_text(runs[0]) =~= found_by(runs[0]));
        assert(acc + (found_by(runs[0]) + rest.map_values(found).flatten()) =~= acc + found_by(
            runs[0],
        ) + rest.map_values(found).flatten());
    }
}

/// The first run that did not end well is what is shown, whatever the runs before it found:
/// what it complained of, or how it ended.
pub proof fn law_first_failed_run_is_shown(
    tools: Tools,
    acc: Seq<char>,
    before: Seq<RgRun>,
    run: RgRun,
    rest: Seq<RgRun>,
)
    requires
        forall|i: int| 0 <= i < before.len() ==> ended_well(#[trigger] before[i]),
        !ended_well(run),
    ensures
        runs_output(tools, acc, before + seq![run] + rest) == (match run {
            RgRun::Exited { code, stderr, .. } => if stderr@.len() > 0 {
                executor::truncated(
                    text::replaced(text::shown_text(stderr@), tools.root, "/codebase"@),
                    tools.limits.result_max_lines as nat,
                    tools.limits.line_max_chars as nat,
                )
            } else {
                "Error: exit status "@ + text::signed_decimal(
                    match code {
                        Some(code) => code as int,
                        None => -1,
                    },
                )
            },
            RgRun::Failed(message) => "Error: "@ + message@,
            RgRun::NotFound => rg_missing_text(),
            RgRun::Unresolved(error) => resolution_text(error),
        }),
    decreases before.len(),
{
    let all = before + seq![run] + rest;
    if before.len() == 0 {
        assert(all[0] == run);
    } else {
        assert(all[0] == before[0]);
        assert(ended_well(before[0]));
        let others = before.skip(1);
        assert forall|i: int| 0 <= i < others.len() implies ended_well(#[trigger] others[i]) by {
            assert(others[i] == before[i + 1]);
        }
        assert(all.skip(1) =~= others + seq![run] + rest);
        law_first_failed_run_is_shown(tools, acc + run_text(before[0]), others, run, rest);
    }
}

/// A search that the program filters by itself shows what its run found, or what went wrong.
pub proof fn law_native_search_shows_its_run(tools: Tools, run: RgRun)
    ensures
        run matches RgRun::Exited { code, stdout, .. } ==> {
            &&& code == Some(0i32) ==> native_output(tools, run) == executor::truncated(
                text::replaced(text::shown_text(stdout@), tools.root, "/codebase"@),
                tools.limits.result_max_lines as nat,
                tools.limits.line_max_chars as nat,
            )
            &&& code == Some(1i32) ==> native_output(tools, run) == "(no matches)"@
        },
        !ended_well(run) ==> native_output(tools, run) == runs_output(tools, seq![], seq![run]),
{
}

/// A search runs where it has a pattern and a path that exists: on chosen files where the
/// filter is on, by the program alone where it is off. Else it says what is missing.
pub proof fn law_search_starts_as_it_should(
    tools: Tools,
    pattern: Seq<char>,
    path: Seq<char>,
    exists: bool,
)
    ensures
        ({
            let start = rg_start(tools, pattern, path, exists);
            &&& pattern.len() > 0 && path.len() > 0 && exists ==> (start is Filtered
                <==> tools.filter.enabled) && (start is Native <==> !tools.filter.enabled)
            &&& pattern.len() > 0 && path.len() > 0 && !exists ==> start_text(start, path)
                == "Error: path does not exist: "@ + path
            &&& pattern.len() == 0 ==> start_text(start, path)
                == "Error: missing or invalid pattern"@
            &&& pattern.len() > 0 && path.len() == 0 ==> start_text(start, path)
                == "Error: missing or invalid path"@
        }),
{
}

/// The program is looked for in every directory of the search path, in order: by its name,
/// and then with each of the endings.
pub proof fn law_every_directory_is_searched(
    windows: bool,
    dirs: Seq<Seq<char>>,
    dir: Seq<char>,
    endings: Seq<Seq<char>>,
    i: int,
)
    requires
        0 <= i < endings.len(),
    ensures
        ({
            let before = path_candidates(windows, dirs, endings);
            let all = path_candidates(windows, dirs.push(dir), endings);
            let n = before.len() as int;
            &&& before.is_prefix_of(all)
            &&& all.len() == n + 1 + endings.len()
            &&& all[n] == paths::below_on(windows, dir, "rg"@)
            &&& all[n + 1 + i] == paths::below_on(windows, dir, "rg"@ + endings[i])
        }),
{
    let before = path_candidates(windows, dirs, endings);
    let all = path_candidates(windows, dirs.push(dir), endings);
    assert(dirs.push(dir).drop_last() =~= dirs);
    assert(dirs.push(dir).last() == dir);
    assert(before =~= all.subrange(0, before.len() as int));
}

/// The first candidate that is there is the one that is taken, and there is none only where
/// no candidate is there.
pub proof fn law_first_candidate_is_taken(candidates: Seq<Seq<char>>, files: Seq<Seq<char>>)
    ensures
        forall|i: int|
            0 <= i < candidates.len() && files.contains(#[trigger] candidates[i]) && (forall|j: int|
                0 <= j < i ==> !files.contains(#[trigger] candidates[j])) ==> first_existing(
                candidates,
                files,
            ) == Some(candidates[i]),
        first_existing(candidates, files) is None <==> forall|j: int|
            0 <= j < candidates.len() ==> !files.contains(#[trigger] candidates[j]),
    decreases candidates.len(),
{
    if candidates.len() > 0 && !files.contains(candidates[0]) {
        let rest = candidates.skip(1);
        law_first_candidate_is_taken(rest, files);
        assert forall|i: int|
            0 <= i < candidates.len() && files.contains(#[trigger] candidates[i]) && (forall|j: int|
                0 <= j < i ==> !files.contains(#[trigger] candidates[j])) implies first_existing(
            candidates,
            files,
        ) == Some(candidates[i]) by {
            assert(rest[i - 1] == candidates[i]);
            assert forall|j: int| 0 <= j < i - 1 implies !files.contains(#[trigger] rest[j]) by {
                assert(rest[j] == candidates[j + 1]);
            }
        }
        if forall|j: int| 0 <= j < candidates.len() ==> !files.contains(#[trigger] candidates[j]) {
            assert forall|j: int| 0 <= j < rest.len() implies !files.contains(#[trigger] rest[j]) by {
                assert(rest[j] == candidates[j + 1]);
            }
        }
        if first_existing(candidates, files) is None {
            assert forall|j: int| 0 <= j < candidates.len() implies !files.contains(
                #[trigger] candidates[j],
            ) by {
                if j > 0 {
                    assert(!files.contains(rest[j - 1]));
                }
            }
        }
    }
}

/// Where no path is set and no program lies beside this one, the search path decides, with
/// the endings only on Windows.
pub proof fn law_search_path_comes_last(
    current_exe: Option<Seq<char>>,
    dirs: Seq<Seq<char>>,
    windows: bool,
    endings: Seq<Seq<char>>,
    files: Seq<Seq<char>>,
)
    requires
        bundled_path(current_exe, windows) matches Some(path) ==> !files.contains(path),
    ensures
        resolution(None, current_exe, Some(dirs), windows, endings, files) == (match first_existing(
            path_candidates(
                windows,
                dirs,
                if windows {
                    endings
                } else {
                    seq![]
                },
            ),
            files,
        ) {
            Some(path) => Resolved::Found(path),
            None => Resolved::NotFound,
        }),
        resolution(None, current_exe, None, windows, endings, files) == Resolved::NotFound,
{
}

/// The endings that programs may have are those that are set, but for empty ones, or the
/// usual ones where none is.
pub proof fn law_endings_are_those_that_are_set(endings: Seq<Seq<char>>)
    requires
        endings.len() > 0,
        forall|i: int| 0 <= i < endings.len() ==> !(#[trigger] endings[i]).contains(';'),
    ensures
        ({
            let kept = endings.filter(|ending: Seq<char>| ending.len() > 0);
            extension_list(Some(text::joined(endings, seq![';']))) == if kept.len() == 0 {
                seq![".exe"@, ".bat"@, ".cmd"@]
            } else {
                kept
            }
        }),
        extension_list(None) == seq![".exe"@, ".bat"@, ".cmd"@],
{
    text::law_split_joined(endings, ';');
    lemma_nonempty(endings);
}

/// Empty pieces are left out, and the others keep their order.
proof fn lemma_nonempty(pieces: Seq<Seq<char>>)
    ensures
        nonempty(pieces) == pieces.filter(|piece: Seq<char>| piece.len() > 0),
    decreases pieces.len(),
{
    reveal(Seq::filter);
    if pieces.len() > 0 {
        lemma_nonempty(pieces.drop_last());
    }
}

/// The program that comes along is named as the system names programs.
pub proof fn law_bundled_program_has_its_name(windows: bool)
    ensures
        windows <==> bundled_name(windows) == "rg.exe"@,
        !windows <==> bundled_name(windows) == "rg"@,
{
    reveal_strlit("rg.exe");
    reveal_strlit("rg");
    assert("rg.exe"@.len() != "rg"@.len());
}

} // verus!
