//! The local tools: what they show of a project, and how much of it.
use crate::path_filter::{FilterRules, GitignoreSource, PathFilter, PathFilterConfig};
use crate::paths;
use crate::sorting;
use crate::text;
use vstd::prelude::*;

verus! {

/// `value`, or `other` where there is none, brought between `min` and `max`.
pub open spec fn bounded(value: Option<usize>, other: usize, min: usize, max: usize) -> usize {
    let n = match value {
        Some(n) => n,
        None => other,
    };
    if n < min {
        min
    } else if n > max {
        max
    } else {
        n
    }
}

/// `value`, or `other` where there is none, brought between `min` and `max`.
pub fn bounded_int(value: Option<usize>, other: usize, min: usize, max: usize) -> (r: usize)
    requires
        min <= max,
    ensures
        r == bounded(value, other, min, max),
{
    let n = match value {
        Some(n) => n,
        None => other,
    };
    if n < min {
        min
    } else if n > max {
        max
    } else {
        n
    }
}

/// The number that a setting spells, brought between `min` and `max`; `other`
/// where it spells none.
pub open spec fn setting_value(raw: Option<Seq<char>>, other: usize, min: usize, max: usize) -> usize {
    match raw {
        Some(raw) => match text::number(raw) {
            Some(n) if n <= usize::MAX => bounded(Some(n as usize), other, min, max),
            _ => other,
        },
        None => other,
    }
}

/// The number that a setting spells, brought between `min` and `max`; `other`
/// where it spells none.
pub fn read_int_env(raw: Option<&str>, other: usize, min: usize, max: usize) -> (r: usize)
    requires
        min <= max,
    ensures
        r == setting_value(text::opt_str_view(raw), other, min, max),
{
    match raw {
        Some(raw) => match text::parse_usize(raw) {
            Some(n) => bounded_int(Some(n), other, min, max),
            None => other,
        },
        None => other,
    }
}

/// Which limit on the number of lines holds.
#[derive(Debug, Clone, Copy, PartialEq, Eq, Structural)]
pub enum TruncationProfile {
    General,
    ReadfileExpanded,
}

/// How much of a tool's output is shown.
#[derive(Debug, Clone, Copy, PartialEq, Eq, Structural)]
pub struct OutputLimits {
    pub result_max_lines: usize,
    pub readfile_max_lines: usize,
    pub line_max_chars: usize,
}

/// The limits that hold unless others are set.
pub open spec fn default_limits() -> OutputLimits {
    OutputLimits { result_max_lines: 80, readfile_max_lines: 200, line_max_chars: 300 }
}

/// The number of lines that a profile allows.
pub open spec fn line_limit(limits: OutputLimits, profile: TruncationProfile) -> usize {
    match profile {
        TruncationProfile::General => limits.result_max_lines,
        TruncationProfile::ReadfileExpanded => limits.readfile_max_lines,
    }
}

/// What stands for lines that were left out.
pub open spec fn truncation_mark() -> Seq<char> {
    "... (lines truncated) ..."@
}

/// The first `n` characters of a line.
pub open spec fn shortened(line: Seq<char>, n: nat) -> Seq<char> {
    if line.len() <= n {
        line
    } else {
        line.take(n as int)
    }
}

/// The first `count` of the lines, each with its first `width` characters.
pub open spec fn cut_lines(lines: Seq<Seq<char>>, count: nat, width: nat) -> Seq<Seq<char>> {
    Seq::new(
        if lines.len() <= count {
            lines.len()
        } else {
            count
        },
        |i: int| shortened(lines[i], width),
    )
}

/// `content` within the limits: so many lines, each so long, and a mark where
/// lines were left out.
pub open spec fn truncated(content: Seq<char>, count: nat, width: nat) -> Seq<char> {
    let lines = text::split(content, '\n');
    let body = text::joined(cut_lines(lines, count, width), "\n"@);
    if lines.len() > count {
        body + "\n"@ + truncation_mark()
    } else {
        body
    }
}

/// `content` within the limits.
pub fn truncate_to(content: &str, count: usize, width: usize) -> (r: String)
    ensures
        r@ == truncated(content@, count as nat, width as nat),
{
    let lines = text::split_on(content, '\n');
    let ghost all = text::views(lines@);
    let mut kept: Vec<String> = Vec::new();
    let mut i: usize = 0;
    while i < lines.len() && i < count
        invariant
            i <= lines@.len(),
            i <= count,
            all == text::views(lines@),
            kept@.len() == i,
            forall|k: int| 0 <= k < i ==> (#[trigger] kept@[k])@ == shortened(all[k], width as nat),
        decreases lines@.len() - i,
    {
        let chars = text::chars_of(&lines[i]);
        assert(chars@ == all[i as int]);
        let line = if chars.len() <= width {
            text::from_chars(&chars)
        } else {
            let short = text::from_range(&chars, 0, width);
            assert(short@ =~= chars@.take(width as int));
            short
        };
        kept.push(line);
        i += 1;
    }
    assert(text::views(kept@) =~= cut_lines(all, count as nat, width as nat));
    let mut out = text::join(&kept, "\n");
    if lines.len() > count {
        out.append("\n");
        out.append("... (lines truncated) ...");
    }
    out
}

/// Joined lines that hold no newline are as many as before.
proof fn lemma_shortened_line(line: Seq<char>, n: nat)
    requires
        !line.contains('\n'),
    ensures
        !shortened(line, n).contains('\n'),
        shortened(line, n).len() <= n,
        shortened(shortened(line, n), n) == shortened(line, n),
{
    assert forall|i: int| 0 <= i < shortened(line, n).len() implies shortened(line, n)[i]
        != '\n' by {
        assert(line.contains(line[i]));
    }
}

/// Truncated output has no more lines than allowed, but for the mark that
/// stands for the rest, and no line is longer than allowed.
pub proof fn law_truncation_bounds_output(content: Seq<char>, count: nat, width: nat)
    requires
        count > 0,
    ensures
        ({
            let shown = text::split(truncated(content, count, width), '\n');
            let lines = text::split(content, '\n');
            &&& lines.len() <= count ==> shown.len() == lines.len()
            &&& lines.len() > count ==> shown.len() == count + 1 && shown.last()
                == truncation_mark()
            &&& forall|i: int|
                0 <= i < shown.len() && i < count ==> (#[trigger] shown[i]).len() <= width
        }),
{
    let lines = text::split(content, '\n');
    let kept = cut_lines(lines, count, width);
    text::lemma_split_pieces(content, '\n');
    reveal_strlit("\n");
    assert("\n"@ =~= seq!['\n']);
    assert forall|i: int| 0 <= i < kept.len() implies !(#[trigger] kept[i]).contains('\n')
        && kept[i].len() <= width by {
        lemma_shortened_line(lines[i], width);
    }
    if lines.len() > count {
        let mark = truncation_mark();
        reveal_strlit("... (lines truncated) ...");
        assert(!mark.contains('\n'));
        let all = kept.push(mark);
        assert(all.drop_last() =~= kept);
        assert(truncated(content, count, width) =~= text::joined(all, seq!['\n']));
        assert forall|i: int| 0 <= i < all.len() implies !(#[trigger] all[i]).contains('\n') by {
            if i < kept.len() {
                assert(all[i] == kept[i]);
            }
        }
        text::law_split_joined(all, '\n');
        let shown = text::split(truncated(content, count, width), '\n');
        assert(shown == all);
        assert forall|i: int| 0 <= i < shown.len() && i < count implies (#[trigger] shown[i]).len()
            <= width by {
            assert(shown[i] == kept[i]);
        }
    } else {
        text::law_split_joined(kept, '\n');
    }
}

/// The name under which the tools know the project.
pub open spec fn codebase() -> Seq<char> {
    "/codebase"@
}

/// Where a path under `/codebase` leads, before a look at detours. A drive in it
/// leads out of the project.
pub open spec fn path_below(windows: bool, root: Seq<char>, path: Seq<char>) -> Seq<char> {
    if codebase().is_prefix_of(path) {
        let rel = paths::unified(
            windows,
            text::without_leading(path.skip(codebase().len() as int), '/'),
        );
        if windows && paths::has_drive(rel) {
            rel
        } else {
            paths::below(root, rel)
        }
    } else {
        path
    }
}

/// The path on disk that a path under `/codebase` stands for. One that leads
/// out of the project stands for the root of the project.
pub open spec fn real_path(windows: bool, root: Seq<char>, path: Seq<char>) -> Seq<char> {
    let plain = paths::normalized_on(windows, path_below(windows, root, path));
    if paths::is_inside(root, plain) {
        plain
    } else {
        root
    }
}

/// No path leads out of the project: what it stands for is the root of the
/// project or lies below it.
pub proof fn law_paths_stay_inside(windows: bool, root: Seq<char>, path: Seq<char>)
    ensures
        paths::is_inside(root, real_path(windows, root, path)),
{
    assert(paths::parts(root).subrange(0, paths::parts(root).len() as int) =~= paths::parts(root));
}

/// No path that stands for something else than the root leads through a parent directory.
pub proof fn law_real_paths_are_plain(windows: bool, root: Seq<char>, path: Seq<char>)
    ensures
        real_path(windows, root, path) == root || forall|i: int|
            0 <= i < paths::parts(real_path(windows, root, path)).len() ==> !(
            #[trigger] paths::parts(real_path(windows, root, path))[i] is Parent),
{
    paths::law_normalized_on_has_no_detours(windows, path_below(windows, root, path));
}

/// On Windows no path stands for one with a backslash in it, so that none leads out
/// of the project by a name that Windows takes apart.
pub proof fn law_real_paths_have_no_backslash(root: Seq<char>, path: Seq<char>)
    requires
        !root.contains('\\'),
    ensures
        !real_path(true, root, path).contains('\\'),
{
    paths::law_normalized_on_windows_has_no_backslash(path_below(true, root, path));
}

/// Whether a path lies in the project and is written tidily.
pub open spec fn is_project_path(root: Seq<char>, path: Seq<char>) -> bool {
    paths::is_inside(root, path) && paths::is_tidy(path)
}

/// `content` with the root of the project shown as `/codebase`.
pub open spec fn remapped(root: Seq<char>, content: Seq<char>) -> Seq<char> {
    text::replaced(content, root, codebase())
}

/// The local tools of a project.
#[derive(Debug)]
pub struct ToolExecutor {
    windows: bool,
    root: String,
    limits: OutputLimits,
    filter: PathFilter,
    rg_patterns: Vec<String>,
}

/// What the tools of a project go by.
#[verifier::ext_equal]
pub struct Tools {
    pub windows: bool,
    pub root: Seq<char>,
    pub limits: OutputLimits,
    pub filter: FilterRules,
    pub rg_patterns: Seq<Seq<char>>,
}

impl View for ToolExecutor {
    type V = Tools;

    closed spec fn view(&self) -> Tools {
        Tools {
            windows: self.windows,
            root: self.root@,
            limits: self.limits,
            filter: self.filter@,
            rg_patterns: text::views(self.rg_patterns@),
        }
    }
}

/// `content` as a tool shows it.
pub open spec fn shown(tools: Tools, content: Seq<char>, profile: TruncationProfile) -> Seq<char> {
    truncated(
        content,
        line_limit(tools.limits, profile) as nat,
        tools.limits.line_max_chars as nat,
    )
}

/// Whether the tools may show a path.
pub open spec fn path_shown(tools: Tools, path: Seq<char>, is_dir: bool) -> bool {
    crate::path_filter::visible(tools.filter, path, is_dir)
}

/// Those of the directories whose `.gitignore` files are not known.
pub open spec fn unknown_dirs(filter: FilterRules, dirs: Seq<Seq<char>>) -> Seq<Seq<char>>
    decreases dirs.len(),
{
    if dirs.len() == 0 {
        seq![]
    } else if crate::path_filter::known_rules(filter.gitignores, dirs.last()) is None {
        unknown_dirs(filter, dirs.drop_last()).push(dirs.last())
    } else {
        unknown_dirs(filter, dirs.drop_last())
    }
}

/// What is there of a file that is to be read.
#[derive(Debug, Clone)]
pub enum FileRead {
    NotAFile,
    Unreadable(String),
    Content(Vec<u8>),
}

/// Where a range of lines starts: lines count from one.
pub open spec fn range_start(start_line: Option<usize>) -> int {
    match start_line {
        Some(n) if n > 0 => n - 1,
        _ => 0,
    }
}

/// Where a range of lines ends.
pub open spec fn range_end(end_line: Option<usize>, count: int) -> int {
    match end_line {
        Some(n) if n < count => n as int,
        _ => count,
    }
}

/// The lines of a range, each behind its number.
pub open spec fn numbered_lines(lines: Seq<Seq<char>>, start: int, end: int) -> Seq<Seq<char>> {
    if start < end {
        Seq::new(
            (end - start) as nat,
            |i: int| text::decimal((start + i + 1) as nat) + ":"@ + lines[start + i],
        )
    } else {
        seq![]
    }
}

/// A range of the lines of a file, as the tool shows it.
pub open spec fn file_lines(
    tools: Tools,
    data: Seq<u8>,
    start_line: Option<usize>,
    end_line: Option<usize>,
) -> Seq<char> {
    let lines = text::split(text::shown_text(data), '\n');
    shown(
        tools,
        text::joined(
            numbered_lines(
                lines,
                range_start(start_line),
                range_end(end_line, lines.len() as int),
            ),
            "\n"@,
        ),
        TruncationProfile::ReadfileExpanded,
    )
}

/// What `readfile` shows of a file.
pub open spec fn readfile_output(
    tools: Tools,
    file: Seq<char>,
    start_line: Option<usize>,
    end_line: Option<usize>,
    found: FileRead,
) -> Seq<char> {
    if file.len() == 0 {
        "Error: missing or invalid file path"@
    } else {
        match found {
            FileRead::NotAFile => "Error: file not found: "@ + file,
            _ => if !path_shown(tools, real_path(tools.windows, tools.root, file), false) {
                "Error: file not visible: "@ + file
            } else {
                match found {
                    FileRead::Unreadable(message) => "Error: "@ + message@,
                    FileRead::Content(data) => file_lines(tools, data@, start_line, end_line),
                    FileRead::NotAFile => ""@,
                }
            },
        }
    }
}

/// Nothing of what stands in a file is shown where the tools may not show it.
pub proof fn law_hidden_files_are_not_read(
    tools: Tools,
    file: Seq<char>,
    start_line: Option<usize>,
    end_line: Option<usize>,
    a: Vec<u8>,
    b: Vec<u8>,
)
    requires
        !path_shown(tools, real_path(tools.windows, tools.root, file), false),
    ensures
        readfile_output(tools, file, start_line, end_line, FileRead::Content(a))
            == readfile_output(tools, file, start_line, end_line, FileRead::Content(b)),
{
}

/// An entry of a directory that is to be listed. A link counts as a directory
/// where it leads to one, but is none itself.
#[derive(Debug, Clone)]
pub struct LsEntry {
    pub name: String,
    pub is_dir_itself: bool,
    pub leads_to_dir: bool,
    pub size: u64,
}

/// What is there of a directory that is to be listed.
#[derive(Debug, Clone)]
pub enum DirRead {
    NotADir,
    Unreadable(String),
    Entries(Vec<LsEntry>),
}

/// The order of entries: by name.
pub open spec fn name_order() -> spec_fn(LsEntry, LsEntry) -> bool {
    |a: LsEntry, b: LsEntry| text::less(a.name@, b.name@)
}

/// Whether an entry of `dir` is listed.
pub open spec fn is_listed(tools: Tools, dir: Seq<char>, entry: LsEntry, all: bool) -> bool {
    &&& paths::is_plain_name(entry.name@)
    &&& path_shown(tools, paths::below(dir, entry.name@), entry.is_dir_itself)
    &&& all || !(entry.name@.len() > 0 && entry.name@[0] == '.')
}

/// The entries of `dir` that are listed.
pub open spec fn listed(tools: Tools, dir: Seq<char>, entries: Seq<LsEntry>, all: bool) -> Seq<
    LsEntry,
>
    decreases entries.len(),
{
    if entries.len() == 0 {
        seq![]
    } else if is_listed(tools, dir, entries.last(), all) {
        listed(tools, dir, entries.drop_last(), all).push(entries.last())
    } else {
        listed(tools, dir, entries.drop_last(), all)
    }
}

/// `ls` lists no entry of a directory that the tools may not show.
pub proof fn law_listed_entries_are_visible(
    tools: Tools,
    dir: Seq<char>,
    entries: Seq<LsEntry>,
    all: bool,
)
    ensures
        forall|i: int|
            0 <= i < listed(tools, dir, entries, all).len() ==> is_listed(
                tools,
                dir,
                #[trigger] listed(tools, dir, entries, all)[i],
                all,
            ),
    decreases entries.len(),
{
    if entries.len() > 0 {
        let rest = entries.drop_last();
        law_listed_entries_are_visible(tools, dir, rest, all);
        let before = listed(tools, dir, rest, all);
        let items = listed(tools, dir, entries, all);
        assert forall|i: int| 0 <= i < items.len() implies is_listed(
            tools,
            dir,
            #[trigger] items[i],
            all,
        ) by {
            if i < before.len() {
                assert(items[i] == before[i]);
            }
        }
    }
}

/// `content`, with spaces before it up to `width` characters.
pub open spec fn padded(content: Seq<char>, width: nat) -> Seq<char> {
    if content.len() >= width {
        content
    } else {
        Seq::new((width - content.len()) as nat, |i: int| ' ') + content
    }
}

/// The long form of an entry.
pub open spec fn long_line(entry: LsEntry) -> Seq<char> {
    (if entry.leads_to_dir {
        "d"@
    } else {
        "-"@
    }) + "rwxr-xr-x  1 user  staff "@ + padded(text::decimal(entry.size as nat), 8)
        + " Jan 01 00:00 "@ + entry.name@
}

/// What `ls` shows of a directory.
pub open spec fn ls_output(
    tools: Tools,
    path: Seq<char>,
    long_format: bool,
    all: bool,
    found: DirRead,
) -> Seq<char> {
    if path.len() == 0 {
        "Error: missing or invalid path"@
    } else {
        match found {
            DirRead::NotADir => "Error: dir not found: "@ + path,
            DirRead::Unreadable(message) => "Error: "@ + message@,
            DirRead::Entries(entries) => {
                let items = listed(
                    tools,
                    real_path(tools.windows, tools.root, path),
                    sorting::sorted_by(entries@, name_order()),
                    all,
                );
                if long_format {
                    shown(
                        tools,
                        remapped(
                            tools.root,
                            text::joined(
                                seq!["total "@ + text::decimal(items.len())] + Seq::new(
                                    items.len(),
                                    |i: int| long_line(items[i]),
                                ),
                                "\n"@,
                            ),
                        ),
                        TruncationProfile::General,
                    )
                } else {
                    shown(
                        tools,
                        text::joined(Seq::new(items.len(), |i: int| items[i].name@), "\n"@),
                        TruncationProfile::General,
                    )
                }
            },
        }
    }
}

impl ToolExecutor {
    /// Whether the filter speaks of the same project, and its root is tidy.
    pub open spec fn well_formed(&self) -> bool {
        &&& self.filter_well_formed()
        &&& self@.filter.root == self@.root
        &&& paths::is_tidy(self@.root)
    }

    /// Whether the filter is well formed.
    pub closed spec fn filter_well_formed(&self) -> bool {
        self.filter.well_formed()
    }

    /// The filter can be asked about every path of the project that is written tidily.
    pub proof fn lemma_can_tell(&self, path: Seq<char>, is_dir: bool)
        requires
            self.well_formed(),
            is_project_path(self@.root, path),
        ensures
            crate::path_filter::can_tell(self@.filter, path, is_dir),
    {
        crate::path_filter::lemma_can_tell(self@.filter, path, is_dir);
    }

    /// The tools of the project under `root`, taken without detours, whose own
    /// `.gitignore` file is `gitignore`, on Windows or another system.
    pub fn with_limits_and_filter(
        windows: bool,
        root: &str,
        limits: OutputLimits,
        config: PathFilterConfig,
        gitignore: &GitignoreSource,
    ) -> (r: ToolExecutor)
        ensures
            r.well_formed(),
            r@.windows == windows,
            r@.root == paths::normalized_on(windows, root@),
            r@.limits == limits,
            r@.rg_patterns.len() == 0,
            r@.filter == crate::path_filter::setup_rules(
                paths::normalized_on(windows, root@),
                config@,
                *gitignore,
            ),
    {
        let plain = paths::normalize_on(windows, root);
        let filter = PathFilter::new(&plain, config, gitignore);
        ToolExecutor { windows, root: plain, limits, filter, rg_patterns: Vec::new() }
    }

    /// The tools of the project under `root`, with the default limits and filter.
    pub fn new(windows: bool, root: &str, gitignore: &GitignoreSource) -> (r: ToolExecutor)
        ensures
            r.well_formed(),
            r@.windows == windows,
            r@.root == paths::normalized_on(windows, root@),
            r@.limits == default_limits(),
            r@.rg_patterns.len() == 0,
            r@.filter == crate::path_filter::setup_rules(
                paths::normalized_on(windows, root@),
                crate::path_filter::default_policy(),
                *gitignore,
            ),
    {
        let limits = OutputLimits {
            result_max_lines: 80,
            readfile_max_lines: 200,
            line_max_chars: 300,
        };
        Self::with_limits_and_filter(windows, root, limits, PathFilterConfig::default(), gitignore)
    }

    /// The root of the project.
    pub fn root(&self) -> (r: &str)
        ensures
            r@ == self@.root,
    {
        self.root.as_str()
    }

    /// Whether paths are filtered.
    pub fn path_filter_enabled(&self) -> (r: bool)
        ensures
            r == self@.filter.enabled,
    {
        self.filter.is_enabled()
    }

    /// What is said of filter patterns and files that could not be used.
    pub fn path_filter_warnings(&self) -> (r: &Vec<String>)
        ensures
            text::views(r@) == self@.filter.warnings,
    {
        self.filter.warnings()
    }

    /// The patterns that were searched for so far, in order.
    pub fn collected_rg_patterns(&self) -> (r: &Vec<String>)
        ensures
            text::views(r@) == self@.rg_patterns,
    {
        &self.rg_patterns
    }

    /// Remembers a pattern that is searched for.
    pub fn collect_rg_pattern(&mut self, pattern: &str)
        ensures
            final(self)@ == (Tools { rg_patterns: old(self)@.rg_patterns.push(pattern@), ..old(self)@ }),
            final(self).filter_well_formed() == old(self).filter_well_formed(),
    {
        let ghost before = self@.rg_patterns;
        self.rg_patterns.push(text::copied(pattern));
        assert(self@.rg_patterns =~= before.push(pattern@));
    }

    /// The directories whose `.gitignore` files speak of a path and are not known yet.
    pub fn unknown_gitignore_dirs(&self, path: &str) -> (r: Vec<String>)
        ensures
            text::views(r@) == unknown_dirs(
                self@.filter,
                crate::path_filter::gitignore_dirs(self@.filter.root, path@),
            ),
    {
        let dirs = self.filter.gitignore_dirs(path);
        let ghost all = text::views(dirs@);
        let mut out: Vec<String> = Vec::new();
        let mut i: usize = 0;
        assert(text::views(out@) =~= seq![]);
        assert(all.take(0) =~= seq![]);
        while i < dirs.len()
            invariant
                i <= dirs@.len(),
                all == text::views(dirs@),
                text::views(out@) == unknown_dirs(self@.filter, all.take(i as int)),
            decreases dirs@.len() - i,
        {
            let ghost before = text::views(out@);
            proof {
                assert(all.take(i + 1).drop_last() =~= all.take(i as int));
                assert(all.take(i + 1).last() == dirs@[i as int]@);
            }
            if !self.filter.knows_dir(&dirs[i]) {
                out.push(dirs[i].clone());
                assert(text::views(out@) =~= before.push(dirs@[i as int]@));
            }
            i += 1;
        }
        assert(all.take(i as int) =~= all);
        out
    }

    /// Makes the `.gitignore` file of a directory known, where it is not yet.
    pub fn load_gitignore(&mut self, dir: &str, source: &GitignoreSource)
        requires
            old(self).well_formed(),
        ensures
            final(self).well_formed(),
            final(self)@ == (Tools {
                filter: FilterRules {
                    gitignores: if crate::path_filter::known_rules(
                        old(self)@.filter.gitignores,
                        dir@,
                    ) is Some {
                        old(self)@.filter.gitignores
                    } else {
                        old(self)@.filter.gitignores.push(
                            (
                                dir@,
                                crate::path_filter::rule_set(
                                    dir@,
                                    crate::path_filter::gitignore_lines(*source),
                                ),
                            ),
                        )
                    },
                    ..old(self)@.filter
                },
                ..old(self)@
            }),
    {
        self.filter.load_gitignore(dir, source);
    }

    /// Whether the tools may show a path of the project.
    pub fn is_visible_path(&self, path: &str, is_dir: bool) -> (r: bool)
        requires
            crate::path_filter::can_tell(self@.filter, path@, is_dir),
        ensures
            r == path_shown(self@, path@, is_dir),
    {
        self.filter.is_visible(path, is_dir)
    }

    /// The path on disk that a path under `/codebase` stands for.
    pub fn resolve(&self, path: &str) -> (r: String)
        ensures
            r@ == real_path(self@.windows, self@.root, path@),
            paths::is_inside(self@.root, r@),
            paths::is_tidy(self@.root) ==> is_project_path(self@.root, r@),
    {
        let candidate = match text::strip_prefix(path, "/codebase") {
            Some(rest) => {
                let rel = paths::unify(self.windows, &text::trim_leading(&rest, '/'));
                if self.windows && paths::starts_with_drive(&rel) {
                    rel
                } else {
                    paths::join_path(&self.root, &rel)
                }
            },
            None => text::copied(path),
        };
        let plain = paths::normalize_on(self.windows, &candidate);
        proof {
            law_paths_stay_inside(self@.windows, self@.root, path@);
        }
        if paths::starts_with_path(&plain, &self.root) {
            plain
        } else {
            self.root.clone()
        }
    }

    /// `content` with the root of the project shown as `/codebase`.
    pub fn remap(&self, content: &str) -> (r: String)
        ensures
            r@ == remapped(self@.root, content@),
    {
        if self.root.as_str().is_empty() {
            return text::copied(content);
        }
        text::replace(content, &self.root, "/codebase")
    }

    /// `content` as a tool shows it.
    pub fn truncate_text(&self, content: &str, profile: TruncationProfile) -> (r: String)
        ensures
            r@ == shown(self@, content@, profile),
    {
        let count = match profile {
            TruncationProfile::General => self.limits.result_max_lines,
            TruncationProfile::ReadfileExpanded => self.limits.readfile_max_lines,
        };
        truncate_to(content, count, self.limits.line_max_chars)
    }

    /// What `readfile` shows of a file, given what is there of it on disk.
    pub fn execute_readfile(
        &self,
        file: &str,
        start_line: Option<usize>,
        end_line: Option<usize>,
        found: &FileRead,
    ) -> (r: String)
        requires
            self.well_formed(),
        ensures
            r@ == readfile_output(self@, file@, start_line, end_line, *found),
    {
        if file.is_empty() {
            return text::copied("Error: missing or invalid file path");
        }
        if let FileRead::NotAFile = found {
            let mut out = text::copied("Error: file not found: ");
            out.append(file);
            return out;
        }
        let on_disk = self.resolve(file);
        proof {
            self.lemma_can_tell(on_disk@, false);
        }
        if !self.is_visible_path(&on_disk, false) {
            let mut out = text::copied("Error: file not visible: ");
            out.append(file);
            return out;
        }
        match found {
            FileRead::Unreadable(message) => {
                let mut out = text::copied("Error: ");
                out.append(message);
                out
            },
            FileRead::Content(data) => self.render_lines(data, start_line, end_line),
            FileRead::NotAFile => text::copied(""),
        }
    }

    /// A range of the lines of a file, each behind its number.
    pub fn render_lines(
        &self,
        data: &[u8],
        start_line: Option<usize>,
        end_line: Option<usize>,
    ) -> (r: String)
        ensures
            r@ == file_lines(self@, data@, start_line, end_line),
    {
        let content = text::show_bytes(data);
        let lines = text::split_on(&content, '\n');
        let ghost all = text::views(lines@);
        let start: usize = match start_line {
            Some(n) => if n > 0 {
                n - 1
            } else {
                0
            },
            None => 0,
        };
        let end: usize = match end_line {
            Some(n) => if n < lines.len() {
                n
            } else {
                lines.len()
            },
            None => lines.len(),
        };
        let mut out: Vec<String> = Vec::new();
        let mut i: usize = start;
        while i < end
            invariant
                start <= i,
                start < end ==> i <= end,
                start >= end ==> i == start,
                end <= lines@.len(),
                all == text::views(lines@),
                out@.len() == i - start,
                forall|k: int|
                    0 <= k < out@.len() ==> (#[trigger] out@[k])@ == text::decimal(
                        (start + k + 1) as nat,
                    ) + ":"@ + all[start + k],
            decreases end - i,
        {
            let mut line = text::decimal_usize(i + 1);
            line.append(":");
            line.append(&lines[i]);
            assert(all[i as int] == lines@[i as int]@);
            out.push(line);
            i += 1;
        }
        assert(text::views(out@) =~= numbered_lines(all, start as int, end as int));
        let body = text::join(&out, "\n");
        self.truncate_text(&body, TruncationProfile::ReadfileExpanded)
    }

    /// Whether the tools may show the entry `name` of a directory of the project.
    pub fn shows_entry(&self, dir: &str, name: &str, is_dir: bool) -> (r: bool)
        requires
            self.well_formed(),
            is_project_path(self@.root, dir@),
        ensures
            r == (paths::is_plain_name(name@) && path_shown(
                self@,
                paths::below(dir@, name@),
                is_dir,
            )),
    {
        if !paths::is_plain(name) {
            return false;
        }
        proof {
            paths::lemma_below_inside(self@.root, dir@, name@);
            paths::lemma_below_tidy(dir@, name@);
            self.lemma_can_tell(paths::below(dir@, name@), is_dir);
        }
        let path = paths::join_path(dir, name);
        self.is_visible_path(&path, is_dir)
    }

    /// What `ls` shows of a directory, given what is there of it on disk.
    pub fn execute_ls(&self, path: &str, long_format: bool, all: bool, found: DirRead) -> (r: String)
        requires
            self.well_formed(),
        ensures
            r@ == ls_output(self@, path@, long_format, all, found),
    {
        if path.is_empty() {
            return text::copied("Error: missing or invalid path");
        }
        let entries = match found {
            DirRead::NotADir => {
                let mut out = text::copied("Error: dir not found: ");
                out.append(path);
                return out;
            },
            DirRead::Unreadable(message) => {
                let mut out = text::copied("Error: ");
                out.append(&message);
                return out;
            },
            DirRead::Entries(entries) => entries,
        };
        let sorted = sorting::sort_by(
            entries,
            by_name,
            Ghost(name_order()),
        );
        let dir = self.resolve(path);
        let items = self.filter_entries(&dir, sorted, all);
        let mut lines: Vec<String> = Vec::new();
        if !long_format {
            let mut i: usize = 0;
            while i < items.len()
                invariant
                    i <= items@.len(),
                    lines@.len() == i,
                    forall|k: int| 0 <= k < i ==> (#[trigger] lines@[k])@ == items@[k].name@,
                decreases items@.len() - i,
            {
                lines.push(items[i].name.clone());
                i += 1;
            }
            assert(text::views(lines@) =~= Seq::new(items@.len(), |i: int| items@[i].name@));
            let body = text::join(&lines, "\n");
            return self.truncate_text(&body, TruncationProfile::General);
        }
        let mut head = text::copied("total ");
        let count = text::decimal_usize(items.len());
        head.append(&count);
        let ghost first = head@;
        lines.push(head);
        let mut i: usize = 0;
        while i < items.len()
            invariant
                i <= items@.len(),
                lines@.len() == i + 1,
                lines@[0]@ == first,
                forall|k: int| 0 < k <= i ==> (#[trigger] lines@[k])@ == long_line(items@[k - 1]),
            decreases items@.len() - i,
        {
            lines.push(format_long_line(&items[i]));
            i += 1;
        }
        assert(text::views(lines@) =~= seq![first] + Seq::new(
            items@.len(),
            |i: int| long_line(items@[i]),
        ));
        let body = text::join(&lines, "\n");
        let mapped = self.remap(&body);
        self.truncate_text(&mapped, TruncationProfile::General)
    }

    /// The entries of `dir` that are listed.
    fn filter_entries(&self, dir: &str, entries: Vec<LsEntry>, all: bool) -> (r: Vec<LsEntry>)
        requires
            self.well_formed(),
            is_project_path(self@.root, dir@),
        ensures
            r@ == listed(self@, dir@, entries@, all),
    {
        let ghost given = entries@;
        let mut out: Vec<LsEntry> = Vec::new();
        assert(given.take(0) =~= seq![]);
        for entry in it: entries
            invariant
                it.seq() == given,
                self.well_formed(),
                is_project_path(self@.root, dir@),
                out@ == listed(self@, dir@, given.take(it.index()), all),
        {
            proof {
                let k = it.index();
                assert(given.take(k + 1).drop_last() =~= given.take(k));
                assert(given.take(k + 1).last() == given[k]);
                assert(entry == given[k]);
            }
            let first = text::chars_of(&entry.name);
            let hidden = first.len() > 0 && first[0] == '.';
            if self.shows_entry(dir, &entry.name, entry.is_dir_itself) && (all || !hidden) {
                out.push(entry);
            }
        }
        assert(given.take(given.len() as int) =~= given);
        out
    }
}

/// Whether the first entry comes before the second.
fn by_name(a: &LsEntry, b: &LsEntry) -> (r: bool)
    ensures
        r == text::less(a.name@, b.name@),
{
    text::comes_before(&a.name, &b.name)
}

/// `content`, with spaces before it up to `width` characters.
fn pad_left(content: &str, width: usize) -> (r: String)
    ensures
        r@ == padded(content@, width as nat),
{
    let chars = text::chars_of(content);
    let mut out = String::new();
    let mut n: usize = chars.len();
    let ghost spaces = Seq::new((width - content@.len()) as nat, |i: int| ' ');
    assert(out@ =~= seq![]);
    while n < width
        invariant
            chars@ == content@,
            chars@.len() <= n,
            chars@.len() < width ==> n <= width,
            chars@.len() >= width ==> n == chars@.len(),
            out@ == Seq::new((n - chars@.len()) as nat, |i: int| ' '),
        decreases width - n,
    {
        out.push(' ');
        n += 1;
        assert(out@ =~= Seq::new((n - chars@.len()) as nat, |i: int| ' '));
    }
    out.append(content);
    assert(out@ =~= padded(content@, width as nat));
    out
}

/// The long form of an entry.
fn format_long_line(entry: &LsEntry) -> (r: String)
    ensures
        r@ == long_line(*entry),
{
    let size = text::decimal_u64(entry.size);
    let column = pad_left(&size, 8);
    let mut out = if entry.leads_to_dir {
        text::copied("d")
    } else {
        text::copied("-")
    };
    out.append("rwxr-xr-x  1 user  staff ");
    out.append(&column);
    out.append(" Jan 01 00:00 ");
    out.append(&entry.name);
    out
}

/// Content within the limits is shown as it is; of other content as many lines as may be
/// shown, from the first on, each from its start.
pub proof fn law_truncation_keeps_the_start(content: Seq<char>, count: nat, width: nat)
    requires
        count > 0,
    ensures
        ({
            let lines = text::split(content, '\n');
            let shown = text::split(truncated(content, count, width), '\n');
            &&& forall|i: int|
                0 <= i < lines.len() && i < count ==> #[trigger] shown[i] == lines[i].take(
                    vstd::math::min(lines[i].len() as int, width as int),
                )
            &&& lines.len() <= count && (forall|i: int|
                0 <= i < lines.len() ==> (#[trigger] lines[i]).len() <= width) ==> truncated(
                content,
                count,
                width,
            ) == content
        }),
{
    let lines = text::split(content, '\n');
    let kept = cut_lines(lines, count, width);
    text::lemma_split_pieces(content, '\n');
    reveal_strlit("\n");
    assert("\n"@ =~= seq!['\n']);
    assert forall|i: int| 0 <= i < kept.len() implies !(#[trigger] kept[i]).contains('\n') by {
        assert(!lines[i].contains('\n'));
        lemma_shortened_line(lines[i], width);
    }
    if lines.len() > count {
        let all = kept.push(truncation_mark());
        reveal_strlit("... (lines truncated) ...");
        assert(all.drop_last() =~= kept);
        assert(truncated(content, count, width) =~= text::joined(all, seq!['\n']));
        assert forall|i: int| 0 <= i < all.len() implies !(#[trigger] all[i]).contains('\n') by {
            if i < kept.len() {
                assert(all[i] == kept[i]);
            }
        }
        text::law_split_joined(all, '\n');
        assert forall|i: int| 0 <= i < lines.len() && i < count implies #[trigger] text::split(
            truncated(content, count, width),
            '\n',
        )[i] == lines[i].take(vstd::math::min(lines[i].len() as int, width as int)) by {
            assert(all[i] == kept[i]);
            if lines[i].len() <= width {
                assert(lines[i].take(lines[i].len() as int) =~= lines[i]);
            }
        }
    } else {
        text::law_split_joined(kept, '\n');
        assert forall|i: int| 0 <= i < lines.len() && i < count implies #[trigger] text::split(
            truncated(content, count, width),
            '\n',
        )[i] == lines[i].take(vstd::math::min(lines[i].len() as int, width as int)) by {
            assert(kept[i] == shortened(lines[i], width));
            if lines[i].len() <= width {
                assert(lines[i].take(lines[i].len() as int) =~= lines[i]);
            }
        }
        if forall|i: int| 0 <= i < lines.len() ==> (#[trigger] lines[i]).len() <= width {
            assert forall|i: int| 0 <= i < lines.len() implies kept[i] == lines[i] by {
                assert(lines[i].len() <= width);
            }
            assert(kept =~= lines);
            text::law_joined_split(content, '\n');
        }
    }
}

/// A number is written without line ends.
proof fn lemma_decimal_has_no_line_end(n: nat)
    ensures
        !text::decimal(n).contains('\n'),
{
    text::lemma_decimal_digits(n);
}

/// A range of lines is read whole: of a file that may be shown, and within the limits, the
/// tool shows every line from the one that is asked for, or the first, to the one that is
/// asked for, or the last, behind its number, and nothing else.
pub proof fn law_readfile_shows_the_range(
    tools: Tools,
    file: Seq<char>,
    start_line: Option<usize>,
    end_line: Option<usize>,
    data: Vec<u8>,
    lines: Seq<Seq<char>>,
)
    requires
        file.len() > 0,
        path_shown(tools, real_path(tools.windows, tools.root, file), false),
        lines.len() > 0,
        forall|i: int| 0 <= i < lines.len() ==> !(#[trigger] lines[i]).contains('\n'),
        text::shown_text(data@) == text::joined(lines, seq!['\n']),
    ensures
        ({
            let first = match start_line {
                Some(n) => vstd::math::max(n as int, 1),
                None => 1,
            };
            let last = match end_line {
                Some(n) => vstd::math::min(n as int, lines.len() as int),
                None => lines.len() as int,
            };
            let output = readfile_output(
                tools,
                file,
                start_line,
                end_line,
                FileRead::Content(data),
            );
            let width = tools.limits.line_max_chars as int;
            let shown = text::split(output, '\n');
            &&& first <= last && last - first < tools.limits.readfile_max_lines ==> shown.len()
                == last - first + 1
            &&& forall|k: int|
                first <= k <= last && k - first < tools.limits.readfile_max_lines ==> {
                    let line = text::decimal(k as nat) + seq![':'] + lines[k - 1];
                    #[trigger] shown[k - first] == line.take(
                        vstd::math::min(line.len() as int, width),
                    )
                }
            &&& first > last && tools.limits.readfile_max_lines > 0 ==> output.len() == 0
        }),
{
    let first = match start_line {
        Some(n) => vstd::math::max(n as int, 1),
        None => 1,
    };
    let last = match end_line {
        Some(n) => vstd::math::min(n as int, lines.len() as int),
        None => lines.len() as int,
    };
    text::law_split_joined(lines, '\n');
    reveal_strlit("\n");
    reveal_strlit(":");
    assert("\n"@ =~= seq!['\n']);
    assert(":"@ =~= seq![':']);
    let numbered = numbered_lines(lines, first - 1, last);
    let content = text::joined(numbered, seq!['\n']);
    let count = tools.limits.readfile_max_lines as nat;
    let width = tools.limits.line_max_chars as nat;
    let output = readfile_output(tools, file, start_line, end_line, FileRead::Content(data));
    assert(output == truncated(content, count, width));
    if first <= last {
        assert forall|i: int| 0 <= i < numbered.len() implies !(#[trigger] numbered[i]).contains(
            '\n',
        ) by {
            let number = text::decimal((first + i) as nat);
            lemma_decimal_has_no_line_end((first + i) as nat);
            assert(!lines[first - 1 + i].contains('\n'));
            let line = number + ":"@ + lines[first - 1 + i];
            assert(numbered[i] == line);
            assert forall|j: int| 0 <= j < line.len() implies line[j] != '\n' by {
                if j < number.len() {
                    assert(number.contains(number[j]));
                } else if j > number.len() {
                    assert(lines[first - 1 + i].contains(
                        lines[first - 1 + i][j - number.len() - 1],
                    ));
                }
            }
        }
        text::law_split_joined(numbered, '\n');
        if count > 0 {
            law_truncation_keeps_the_start(content, count, width);
            law_truncation_bounds_output(content, count, width);
        }
    } else if count > 0 {
        assert(content =~= seq![]);
        law_truncation_keeps_the_start(content, count, width);
        text::lemma_until_is(content, '\n', 0);
        assert(text::split(content, '\n') =~= seq![Seq::<char>::empty()]);
    }
}

/// What cannot be read is told apart: no path at all, no file, a file that may not be
/// shown, and a file that the system refuses.
pub proof fn law_readfile_tells_what_is_wrong(
    tools: Tools,
    file: Seq<char>,
    start_line: Option<usize>,
    end_line: Option<usize>,
    message: String,
    data: Vec<u8>,
)
    ensures
        file.len() > 0 ==> readfile_output(tools, file, start_line, end_line, FileRead::NotAFile)
            == "Error: file not found: "@ + file,
        file.len() > 0 && !path_shown(
            tools,
            real_path(tools.windows, tools.root, file),
            false,
        ) ==> readfile_output(tools, file, start_line, end_line, FileRead::Content(data))
            == "Error: file not visible: "@ + file,
        file.len() > 0 && path_shown(
            tools,
            real_path(tools.windows, tools.root, file),
            false,
        ) ==> readfile_output(tools, file, start_line, end_line, FileRead::Unreadable(message))
            == "Error: "@ + message@,
        readfile_output(tools, seq![], start_line, end_line, FileRead::Content(data))
            == "Error: missing or invalid file path"@,
{
}

/// Listing goes by what may be shown and by the dot, and keeps the order.
proof fn lemma_listed(tools: Tools, dir: Seq<char>, entries: Seq<LsEntry>, all: bool)
    ensures
        listed(tools, dir, entries, all) == entries.filter(
            |entry: LsEntry| is_listed(tools, dir, entry, all),
        ),
    decreases entries.len(),
{
    reveal(Seq::filter);
    if entries.len() > 0 {
        lemma_listed(tools, dir, entries.drop_last(), all);
    }
}

/// The entries of a directory are listed in the order of their names: all of them that may
/// be shown, but for those with a dot at their start where they are not asked for.
pub proof fn law_ls_lists_what_may_be_shown(
    tools: Tools,
    path: Seq<char>,
    all: bool,
    entries: Vec<LsEntry>,
)
    requires
        path.len() > 0,
    ensures
        ({
            let dir = real_path(tools.windows, tools.root, path);
            let sorted = sorting::sorted_by(
                entries@,
                |a: LsEntry, b: LsEntry| text::less(a.name@, b.name@),
            );
            let items = sorted.filter(
                |entry: LsEntry|
                    {
                        &&& entry.name@.len() > 0 && entry.name@ != seq!['.'] && entry.name@ != seq![
                            '.',
                            '.',
                        ] && !entry.name@.contains('/')
                        &&& path_shown(tools, paths::below(dir, entry.name@), entry.is_dir_itself)
                        &&& all || entry.name@[0] != '.'
                    },
            );
            let names = items.map_values(|entry: LsEntry| entry.name@);
            &&& ls_output(tools, path, false, all, DirRead::Entries(entries)) == truncated(
                text::joined(names, seq!['\n']),
                tools.limits.result_max_lines as nat,
                tools.limits.line_max_chars as nat,
            )
            &&& ls_output(tools, path, true, all, DirRead::Entries(entries)) == truncated(
                text::replaced(
                    text::joined(
                        seq!["total "@ + text::decimal(items.len())] + items.map_values(
                            |entry: LsEntry| long_line(entry),
                        ),
                        seq!['\n'],
                    ),
                    tools.root,
                    "/codebase"@,
                ),
                tools.limits.result_max_lines as nat,
                tools.limits.line_max_chars as nat,
            )
        }),
{
    let dir = real_path(tools.windows, tools.root, path);
    let order = |a: LsEntry, b: LsEntry| text::less(a.name@, b.name@);
    assert(order =~= name_order());
    let sorted = sorting::sorted_by(entries@, order);
    let wanted = |entry: LsEntry|
        {
            &&& entry.name@.len() > 0 && entry.name@ != seq!['.'] && entry.name@ != seq!['.', '.']
                && !entry.name@.contains('/')
            &&& path_shown(tools, paths::below(dir, entry.name@), entry.is_dir_itself)
            &&& all || entry.name@[0] != '.'
        };
    lemma_listed(tools, dir, sorted, all);
    assert((|entry: LsEntry| is_listed(tools, dir, entry, all)) =~= wanted);
    let items = sorted.filter(wanted);
    reveal_strlit("\n");
    assert("\n"@ =~= seq!['\n']);
    assert(items.map_values(|entry: LsEntry| entry.name@) =~= Seq::new(
        items.len(),
        |i: int| items[i].name@,
    ));
    assert(items.map_values(|entry: LsEntry| long_line(entry)) =~= Seq::new(
        items.len(),
        |i: int| long_line(items[i]),
    ));
}

/// The long line of an entry tells a directory from a file, and shows the size, with blanks
/// before it up to eight places, and the name at its end.
pub proof fn law_long_line_shows_the_entry(entry: LsEntry)
    ensures
        ({
            let size = text::decimal(entry.size as nat);
            let blanks = Seq::new(
                vstd::math::max(8 - size.len(), 0) as nat,
                |i: int| ' ',
            );
            long_line(entry) == (if entry.leads_to_dir {
                seq!['d']
            } else {
                seq!['-']
            }) + "rwxr-xr-x  1 user  staff "@ + blanks + size + " Jan 01 00:00 "@ + entry.name@
        }),
{
    let size = text::decimal(entry.size as nat);
    let blanks = Seq::new(vstd::math::max(8 - size.len(), 0) as nat, |i: int| ' ');
    reveal_strlit("d");
    reveal_strlit("-");
    assert("d"@ =~= seq!['d']);
    assert("-"@ =~= seq!['-']);
    assert(padded(size, 8) =~= blanks + size);
    let head = (if entry.leads_to_dir {
        seq!['d']
    } else {
        seq!['-']
    }) + "rwxr-xr-x  1 user  staff "@;
    assert(head + (blanks + size) =~= head + blanks + size);
}

/// A path below `/codebase` stands for the same path below the root of the project, where
/// it takes no detours.
pub proof fn law_codebase_stands_for_the_root(root: Seq<char>, rel: Seq<char>)
    requires
        paths::normalized(paths::below(root, rel)) == paths::below(root, rel),
        paths::is_inside(root, paths::below(root, rel)),
        rel.len() > 0,
        rel[0] != '/',
    ensures
        real_path(false, root, "/codebase/"@ + rel) == paths::below(root, rel),
{
    reveal_strlit("/codebase");
    reveal_strlit("/codebase/");
    let path = "/codebase/"@ + rel;
    assert("/codebase"@ =~= path.subrange(0, 9));
    let inner = path.skip(9);
    assert(inner =~= seq!['/'] + rel);
    assert(inner.skip(1) =~= rel);
    assert(text::without_leading(rel, '/') == rel);
    assert(text::without_leading(inner, '/') == rel);
}

/// A path that leads out of the project stands for its root.
pub proof fn law_paths_outside_stand_for_the_root(root: Seq<char>, path: Seq<char>)
    requires
        !"/codebase"@.is_prefix_of(path),
        !paths::is_inside(root, paths::normalized(path)),
    ensures
        real_path(false, root, path) == root,
{
}

/// A number that is given counts, within its bounds; else the usual one does. What is no
/// number counts for nothing.
pub proof fn law_settings_are_bounded(
    raw: Option<Seq<char>>,
    other: usize,
    min: usize,
    max: usize,
)
    requires
        min <= max,
    ensures
        ({
            let value = setting_value(raw, other, min, max);
            match raw {
                Some(digits) => match text::number(digits) {
                    Some(n) if n <= usize::MAX => value == vstd::math::max(
                        min as int,
                        vstd::math::min(n as int, max as int),
                    ),
                    _ => value == other,
                },
                None => value == other,
            }
        }),
        forall|n: usize|
            #[trigger] bounded(Some(n), other, min, max) == vstd::math::max(
                min as int,
                vstd::math::min(n as int, max as int),
            ),
        bounded(None, other, min, max) == vstd::math::max(
            min as int,
            vstd::math::min(other as int, max as int),
        ),
{
}

/// A listing of what is no directory, or cannot be read, says so.
pub proof fn law_ls_tells_what_is_wrong(
    tools: Tools,
    path: Seq<char>,
    long_format: bool,
    all: bool,
    message: String,
    found: DirRead,
)
    ensures
        path.len() > 0 ==> ls_output(tools, path, long_format, all, DirRead::NotADir)
            == "Error: dir not found: "@ + path,
        path.len() > 0 ==> ls_output(tools, path, long_format, all, DirRead::Unreadable(message))
            == "Error: "@ + message@,
        path.len() == 0 ==> ls_output(tools, path, long_format, all, found)
            == "Error: missing or invalid path"@,
{
}

/// The directories whose rules are still to be read are those that are not known, in order.
pub proof fn law_unknown_directories_are_asked_for(filter: FilterRules, dirs: Seq<Seq<char>>)
    ensures
        unknown_dirs(filter, dirs) == dirs.filter(
            |dir: Seq<char>|
                forall|i: int|
                    0 <= i < filter.gitignores.len() ==> (#[trigger] filter.gitignores[i]).0 != dir,
        ),
    decreases dirs.len(),
{
    reveal(Seq::filter);
    if dirs.len() > 0 {
        law_unknown_directories_are_asked_for(filter, dirs.drop_last());
        let dir = dirs.last();
        crate::path_filter::law_rules_are_known_once_read(filter.gitignores, dir);
    }
}

} // verus!
