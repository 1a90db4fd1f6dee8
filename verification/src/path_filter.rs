//! Which paths of a project the tools may show.
use crate::paths;
use crate::text;
use ignore::gitignore::{Gitignore, GitignoreBuilder};
use vstd::prelude::*;

verus! {

/// How paths are filtered: whether at all, and by which patterns.
#[derive(Debug, Clone)]
pub struct PathFilterConfig {
    pub enabled: bool,
    pub include_patterns: Vec<String>,
    pub exclude_patterns: Vec<String>,
    pub warnings: Vec<String>,
}

/// What a filter configuration says.
#[verifier::ext_equal]
pub struct Policy {
    pub enabled: bool,
    pub include_patterns: Seq<Seq<char>>,
    pub exclude_patterns: Seq<Seq<char>>,
    pub warnings: Seq<Seq<char>>,
}

impl View for PathFilterConfig {
    type V = Policy;

    open spec fn view(&self) -> Policy {
        Policy {
            enabled: self.enabled,
            include_patterns: text::views(self.include_patterns@),
            exclude_patterns: text::views(self.exclude_patterns@),
            warnings: text::views(self.warnings@),
        }
    }
}

/// Filtering is on, without patterns.
pub open spec fn default_policy() -> Policy {
    Policy {
        enabled: true,
        include_patterns: seq![],
        exclude_patterns: seq![],
        warnings: seq![],
    }
}

impl Default for PathFilterConfig {
    fn default() -> (r: Self)
        ensures
            r@ == default_policy(),
    {
        let r = PathFilterConfig {
            enabled: true,
            include_patterns: Vec::new(),
            exclude_patterns: Vec::new(),
            warnings: Vec::new(),
        };
        assert(r@ =~~= default_policy());
        r
    }
}

impl PathFilterConfig {
    /// Filtering on, without patterns.
    pub fn enabled() -> (r: Self)
        ensures
            r@ == default_policy(),
    {
        Self::default()
    }

    /// Filtering off.
    pub fn disabled() -> (r: Self)
        ensures
            r@ == (Policy { enabled: false, ..default_policy() }),
    {
        let mut r = Self::default();
        r.enabled = false;
        r
    }

    /// Filtering on, with the given patterns excluded.
    pub fn with_excludes(exclude_patterns: Vec<String>) -> (r: Self)
        ensures
            r@ == (Policy {
                exclude_patterns: text::views(exclude_patterns@),
                ..default_policy()
            }),
    {
        let mut r = Self::default();
        r.exclude_patterns = exclude_patterns;
        r
    }
}

/// A matcher of the `ignore` crate. Its rules are its `matcher_lines`, relative
/// to its `matcher_root`.
#[verifier::external_type_specification]
#[verifier::external_body]
pub struct ExGitignore(ignore::gitignore::Gitignore);

/// A matcher of the `ignore` crate under construction.
#[verifier::external_type_specification]
#[verifier::external_body]
pub struct ExGitignoreBuilder(ignore::gitignore::GitignoreBuilder);

/// The directory that the rules of a matcher under construction are relative to, as
/// the matcher keeps it.
pub uninterp spec fn builder_root(builder: ignore::gitignore::GitignoreBuilder) -> Seq<char>;

/// The rules that a matcher under construction holds, in order.
pub uninterp spec fn builder_lines(builder: ignore::gitignore::GitignoreBuilder) -> Seq<Seq<char>>;

/// The directory that the rules of a matcher are relative to, as the matcher keeps
/// it. What a matcher without rules keeps is not said.
pub uninterp spec fn matcher_root(matcher: ignore::gitignore::Gitignore) -> Seq<char>;

/// The rules that a matcher holds, in order.
pub uninterp spec fn matcher_lines(matcher: ignore::gitignore::Gitignore) -> Seq<Seq<char>>;

/// Why a line is no rule, where it is none.
pub uninterp spec fn line_error(line: Seq<char>) -> Option<Seq<char>>;

/// Why no matcher can be made of the rules, where none can.
pub uninterp spec fn build_error(lines: Seq<Seq<char>>) -> Option<Seq<char>>;

/// What rules say of a path.
#[derive(Debug, Clone, Copy, PartialEq, Eq, Structural)]
pub enum Decision {
    Ignore,
    Whitelist,
    Undecided,
}

/// What the rules of a directory say of a path or of the nearest of its parents
/// of which they say anything, on systems whose path separator is `/`. On others the
/// same rules can say something else, and nothing is claimed.
pub uninterp spec fn rules_decision(
    root: Seq<char>,
    lines: Seq<Seq<char>>,
    path: Seq<char>,
    is_dir: bool,
) -> Decision;

/// `path` without a dot and a slash at its start.
pub open spec fn without_dot_slash(path: Seq<char>) -> Seq<char> {
    if path.len() >= 2 && path[0] == '.' && path[1] == '/' {
        path.skip(2)
    } else {
        path
    }
}

/// Whether a path is the current directory, by its parts.
pub open spec fn is_current_dir(path: Seq<char>) -> bool {
    paths::parts(path) == seq![paths::Part::Cur]
}

/// The path that a matcher looks at: `path` from `base` on, where it starts with
/// it. `base` is the directory as the matcher keeps it.
pub open spec fn stripped(base: Seq<char>, path: Seq<char>) -> Seq<char> {
    let shown = without_dot_slash(path);
    if !is_current_dir(base) && shown.contains('/') && base.is_prefix_of(shown) {
        let rest = shown.skip(base.len() as int);
        if rest.len() > 0 && rest[0] == '/' {
            rest.skip(1)
        } else {
            rest
        }
    } else {
        shown
    }
}

/// `GitignoreBuilder::new`: no rules yet, relative to `root`, of which a dot and a
/// slash at the start are not kept.
#[verifier::external_body]
fn new_builder(root: &str) -> (r: GitignoreBuilder)
    ensures
        builder_root(r) == without_dot_slash(root@),
        builder_lines(r) == Seq::<Seq<char>>::empty(),
{
    GitignoreBuilder::new(root)
}

/// Whether a line is more than a comment or white space.
pub open spec fn is_rule(line: Seq<char>) -> bool {
    text::trimmed_end(line).len() > 0 && line[0] != '#'
}

/// `GitignoreBuilder::add_line`: adds a rule, or gives the text of the error
/// where the line is none. Whether it is one depends on the line alone; `source` is
/// only recorded. A comment or a blank line adds nothing.
#[verifier::external_body]
fn add_line(builder: &mut GitignoreBuilder, source: &str, line: &str) -> (r: Option<String>)
    ensures
        text::opt_view(r) == line_error(line@),
        builder_root(*final(builder)) == builder_root(*old(builder)),
        builder_lines(*final(builder)) == if r is None && is_rule(line@) {
            builder_lines(*old(builder)).push(line@)
        } else {
            builder_lines(*old(builder))
        },
{
    let from = Some(std::path::PathBuf::from(source));
    builder.add_line(from, line).err().map(|err| err.to_string())
}

/// `GitignoreBuilder::build`: a matcher with the rules of the builder, or the
/// text of the error. Whether there is one depends on the rules alone; without
/// rules there is none, and the matcher does not keep the builder's directory.
#[verifier::external_body]
fn build_matcher(builder: &GitignoreBuilder) -> (r: Result<Gitignore, String>)
    ensures
        match r {
            Ok(matcher) => {
                &&& build_error(builder_lines(*builder)) is None
                &&& matcher_lines(matcher) == builder_lines(*builder)
                &&& builder_lines(*builder).len() > 0 ==> matcher_root(matcher) == builder_root(
                    *builder,
                )
            },
            Err(message) => build_error(builder_lines(*builder)) == Some(message@),
        },
        builder_lines(*builder).len() == 0 ==> r is Ok,
{
    builder.build().map_err(|err| err.to_string())
}

/// `Gitignore::matched_path_or_any_parents`. A matcher without rules decides
/// nothing; one with rules panics where the path that it looks at starts at the
/// root. All of this is said of systems whose path separator is `/`, on which the
/// outcome depends on the rules, the path and the flag alone; of others nothing is
/// claimed.
#[verifier::external_body]
fn decide(matcher: &Gitignore, path: &str, is_dir: bool) -> (r: Decision)
    requires
        is_askable(rules_of(*matcher), path@),
    ensures
        matcher_lines(*matcher).len() > 0 ==> r == rules_decision(
            matcher_root(*matcher),
            matcher_lines(*matcher),
            path@,
            is_dir,
        ),
        matcher_lines(*matcher).len() == 0 ==> r is Undecided,
{
    match matcher.matched_path_or_any_parents(path, is_dir) {
        ignore::Match::None => Decision::Undecided,
        ignore::Match::Ignore(_) => Decision::Ignore,
        ignore::Match::Whitelist(_) => Decision::Whitelist,
    }
}

/// Rules and the directory that they are relative to. Where there are no rules there
/// is no directory either.
#[verifier::ext_equal]
pub struct RuleSet {
    pub root: Seq<char>,
    pub lines: Seq<Seq<char>>,
}

/// The rules of a matcher.
pub open spec fn rules_of(matcher: Gitignore) -> RuleSet {
    let lines = matcher_lines(matcher);
    RuleSet {
        root: if lines.len() > 0 {
            matcher_root(matcher)
        } else {
            seq![]
        },
        lines,
    }
}

/// The given rules, relative to `root`.
pub open spec fn rules_below(root: Seq<char>, lines: Seq<Seq<char>>) -> RuleSet {
    RuleSet {
        root: if lines.len() > 0 {
            without_dot_slash(root)
        } else {
            seq![]
        },
        lines,
    }
}

/// Whether rules belong to the directory `root`.
pub open spec fn are_below(rules: RuleSet, root: Seq<char>) -> bool {
    rules == rules_below(root, rules.lines)
}

/// Whether rules can be asked about a path: it must not start at the root where it
/// is seen from their directory, unless there are none.
pub open spec fn is_askable(rules: RuleSet, path: Seq<char>) -> bool {
    rules.lines.len() == 0 || !paths::is_rooted(stripped(rules.root, path))
}

/// What rules say of a path. Where there are none they say nothing.
pub open spec fn decision(rules: RuleSet, path: Seq<char>, is_dir: bool) -> Decision {
    if rules.lines.len() == 0 {
        Decision::Undecided
    } else {
        rules_decision(rules.root, rules.lines, path, is_dir)
    }
}

/// The lines that are rules.
pub open spec fn valid_lines(lines: Seq<Seq<char>>) -> Seq<Seq<char>>
    decreases lines.len(),
{
    if lines.len() == 0 {
        seq![]
    } else if line_error(lines.last()) is None && is_rule(lines.last()) {
        valid_lines(lines.drop_last()).push(lines.last())
    } else {
        valid_lines(lines.drop_last())
    }
}

/// The rules that the lines make, relative to `root`. Without those that are
/// none; without any where no matcher can be made of them.
pub open spec fn rule_set(root: Seq<char>, lines: Seq<Seq<char>>) -> RuleSet {
    let valid = valid_lines(lines);
    rules_below(
        root,
        if build_error(valid) is None {
            valid
        } else {
            seq![]
        },
    )
}

/// What is said of a matcher that cannot be made.
pub open spec fn build_warnings(source: Seq<char>, lines: Seq<Seq<char>>) -> Seq<Seq<char>> {
    match build_error(valid_lines(lines)) {
        Some(message) => seq!["Could not build "@ + source + " matcher: "@ + message],
        None => seq![],
    }
}

/// What is said of the patterns that are no rules.
pub open spec fn pattern_warnings(source: Seq<char>, lines: Seq<Seq<char>>) -> Seq<Seq<char>>
    decreases lines.len(),
{
    if lines.len() == 0 {
        seq![]
    } else {
        let before = pattern_warnings(source, lines.drop_last());
        match line_error(lines.last()) {
            Some(message) => before.push(
                "Ignored invalid "@ + source + " pattern '"@ + lines.last() + "': "@ + message,
            ),
            None => before,
        }
    }
}

/// A matcher without rules.
fn empty_matcher(root: &str) -> (r: Gitignore)
    ensures
        rules_of(r) == rules_below(root@, seq![]),
{
    let builder = new_builder(root);
    match build_matcher(&builder) {
        Ok(matcher) => matcher,
        Err(_) => vstd::pervasive::unreached(),
    }
}

/// The matcher that a builder makes; one without rules, and a warning, where it
/// makes none.
fn build_or_empty(
    builder: GitignoreBuilder,
    root: &str,
    source: &str,
    warnings: &mut Vec<String>,
) -> (r: Gitignore)
    requires
        builder_root(builder) == without_dot_slash(root@),
    ensures
        rules_of(r) == rules_below(
            root@,
            if build_error(builder_lines(builder)) is None {
                builder_lines(builder)
            } else {
                seq![]
            },
        ),
        text::views(final(warnings)@) == text::views(old(warnings)@) + match build_error(
            builder_lines(builder),
        ) {
            Some(message) => seq!["Could not build "@ + source@ + " matcher: "@ + message],
            None => seq![],
        },
{
    match build_matcher(&builder) {
        Ok(matcher) => {
            assert(text::views(warnings@) =~= text::views(old(warnings)@) + seq![]);
            matcher
        },
        Err(message) => {
            let mut warning = text::copied("Could not build ");
            warning.append(source);
            warning.append(" matcher: ");
            warning.append(&message);
            warnings.push(warning);
            assert(text::views(warnings@) =~= text::views(old(warnings)@) + seq![warning@]);
            empty_matcher(root)
        },
    }
}

/// The matcher for a list of patterns. Those that are no rules are left out,
/// with a warning.
pub fn build_pattern_set(
    root: &str,
    source: &str,
    patterns: &Vec<String>,
    warnings: &mut Vec<String>,
) -> (r: Gitignore)
    ensures
        rules_of(r) == rule_set(root@, text::views(patterns@)),
        text::views(final(warnings)@) == text::views(old(warnings)@) + pattern_warnings(
            source@,
            text::views(patterns@),
        ) + build_warnings(source@, text::views(patterns@)),
{
    let mut builder = new_builder(root);
    let ghost all = text::views(patterns@);
    let ghost start = text::views(warnings@);
    let mut i: usize = 0;
    proof {
        assert(all.take(0) =~= seq![]);
        assert(text::views(warnings@) =~= start + pattern_warnings(source@, all.take(0)));
    }
    while i < patterns.len()
        invariant
            i <= patterns@.len(),
            all == text::views(patterns@),
            builder_root(builder) == without_dot_slash(root@),
            builder_lines(builder) == valid_lines(all.take(i as int)),
            text::views(warnings@) == start + pattern_warnings(source@, all.take(i as int)),
        decreases patterns@.len() - i,
    {
        proof {
            assert(all.take(i + 1).drop_last() =~= all.take(i as int));
            assert(all.take(i + 1).last() == patterns@[i as int]@);
        }
        let ghost before = text::views(warnings@);
        if let Some(message) = add_line(&mut builder, source, &patterns[i]) {
            let mut warning = text::copied("Ignored invalid ");
            warning.append(source);
            warning.append(" pattern '");
            warning.append(&patterns[i]);
            warning.append("': ");
            warning.append(&message);
            warnings.push(warning);
            assert(text::views(warnings@) =~= before.push(warning@));
        }
        assert(text::views(warnings@) =~= start + pattern_warnings(source@, all.take(i + 1)));
        i += 1;
    }
    assert(all.take(i as int) =~= all);
    build_or_empty(builder, root, source, warnings)
}

/// What is there of the `.gitignore` file of a directory.
#[derive(Debug, Clone)]
pub enum GitignoreSource {
    Missing,
    Unreadable(String),
    Content(Vec<u8>),
}

/// The number of bytes of the line that bytes start with, with its end.
pub open spec fn line_size(data: Seq<u8>) -> nat
    decreases data.len(),
{
    if data.len() == 0 {
        0
    } else if data[0] == 10 {
        1
    } else {
        1 + line_size(data.skip(1))
    }
}

/// A line without its end.
pub open spec fn without_line_end(line: Seq<char>) -> Seq<char> {
    if line.len() > 0 && line.last() == '\n' {
        let shown = line.drop_last();
        if shown.len() > 0 && shown.last() == '\r' {
            shown.drop_last()
        } else {
            shown
        }
    } else {
        line
    }
}

/// The lines that bytes hold, up to the first that is no UTF-8.
pub open spec fn text_lines(data: Seq<u8>) -> Seq<Seq<char>>
    decreases data.len(),
    via text_lines_decreases
{
    let line = data.take(line_size(data) as int);
    if data.len() == 0 || !vstd::utf8::valid_utf8(line) {
        seq![]
    } else {
        seq![without_line_end(vstd::utf8::decode_utf8(line))] + text_lines(
            data.skip(line_size(data) as int),
        )
    }
}

/// Whether every line that bytes hold is UTF-8.
pub open spec fn is_all_text(data: Seq<u8>) -> bool
    decreases data.len(),
    via is_all_text_decreases
{
    data.len() == 0 || vstd::utf8::valid_utf8(data.take(line_size(data) as int)) && is_all_text(
        data.skip(line_size(data) as int),
    )
}

#[via_fn]
proof fn text_lines_decreases(data: Seq<u8>) {
    lemma_line_size(data);
}

#[via_fn]
proof fn is_all_text_decreases(data: Seq<u8>) {
    lemma_line_size(data);
}

/// A line takes at least one byte where there is one, and no more than there are.
proof fn lemma_line_size(data: Seq<u8>)
    ensures
        line_size(data) <= data.len(),
        data.len() > 0 ==> line_size(data) > 0,
    decreases data.len(),
{
    if data.len() > 0 && data[0] != 10 {
        lemma_line_size(data.skip(1));
    }
}

/// There are no more lines than bytes, and fewer where a line is no UTF-8.
proof fn lemma_fewer_lines(data: Seq<u8>)
    ensures
        text_lines(data).len() <= data.len(),
        !is_all_text(data) ==> text_lines(data).len() < data.len(),
    decreases data.len(),
{
    lemma_line_size(data);
    if data.len() > 0 {
        lemma_fewer_lines(data.skip(line_size(data) as int));
    }
}

/// The lines of a `.gitignore` file. A byte order mark at its start is no part of them.
pub open spec fn file_lines(content: Seq<u8>) -> Seq<Seq<char>> {
    let all = text_lines(content);
    if all.len() == 0 {
        all
    } else {
        all.update(0, text::without_leading(all[0], '\u{feff}'))
    }
}

/// The lines that there are of a `.gitignore` file.
pub open spec fn gitignore_lines(source: GitignoreSource) -> Seq<Seq<char>> {
    match source {
        GitignoreSource::Content(content) => file_lines(content@),
        _ => seq![],
    }
}

/// Where the `.gitignore` file of a directory stands.
pub open spec fn gitignore_path(root: Seq<char>) -> Seq<char> {
    paths::below(root, ".gitignore"@)
}

/// What is wrong with the lines of a `.gitignore` file.
pub open spec fn gitignore_errors(path: Seq<char>, lines: Seq<Seq<char>>) -> Seq<Seq<char>>
    decreases lines.len(),
{
    if lines.len() == 0 {
        seq![]
    } else {
        let before = gitignore_errors(path, lines.drop_last());
        match line_error(lines.last()) {
            Some(message) => before.push(
                path + ": line "@ + text::decimal(lines.len()) + ": "@ + message,
            ),
            None => before,
        }
    }
}

/// What is wrong with a `.gitignore` file: with its lines, and with the first behind
/// them where it is no UTF-8.
pub open spec fn content_errors(path: Seq<char>, content: Seq<u8>) -> Seq<Seq<char>> {
    let lines = file_lines(content);
    let errors = gitignore_errors(path, lines);
    if is_all_text(content) {
        errors
    } else {
        errors.push(
            path + ": line "@ + text::decimal(lines.len() + 1)
                + ": stream did not contain valid UTF-8"@,
        )
    }
}

/// What is said of a `.gitignore` file that cannot be read, or not in full.
pub open spec fn load_warnings(root: Seq<char>, source: GitignoreSource) -> Seq<Seq<char>> {
    let path = gitignore_path(root);
    match source {
        GitignoreSource::Missing => seq![],
        GitignoreSource::Unreadable(message) => seq![
            "Could not load "@ + path + ": "@ + path + ": "@ + message@,
        ],
        GitignoreSource::Content(content) => {
            let errors = content_errors(path, content@);
            if errors.len() == 0 {
                seq![]
            } else {
                seq!["Could not load "@ + path + ": "@ + text::joined(errors, "\n"@)]
            }
        },
    }
}

/// Where the line that starts at `at` ends.
fn line_end(data: &[u8], at: usize) -> (r: usize)
    requires
        at < data@.len(),
    ensures
        at < r <= data@.len(),
        r - at == line_size(data@.skip(at as int)),
{
    let mut i: usize = at;
    while data[i] != 10
        invariant_except_break
            at <= i < data@.len(),
            line_size(data@.skip(at as int)) == i - at + line_size(data@.skip(i as int)),
        ensures
            at <= i <= data@.len(),
            i < data@.len() ==> data@[i as int] == 10,
            line_size(data@.skip(at as int)) == i - at + line_size(data@.skip(i as int)),
        decreases data@.len() - i,
    {
        assert(data@.skip(i as int)[0] == data@[i as int]);
        assert(data@.skip(i as int).skip(1) =~= data@.skip(i + 1));
        i += 1;
        if i == data.len() {
            break;
        }
    }
    if i < data.len() {
        assert(data@.skip(i as int)[0] == data@[i as int]);
        i + 1
    } else {
        proof {
            lemma_line_size(data@.skip(at as int));
        }
        i
    }
}

/// A line without its end.
fn strip_line_end(line: &str) -> (r: String)
    ensures
        r@ == without_line_end(line@),
{
    let chars = text::chars_of(line);
    let mut to: usize = chars.len();
    if to > 0 && chars[to - 1] == '\n' {
        to -= 1;
        if to > 0 && chars[to - 1] == '\r' {
            to -= 1;
        }
    }
    proof {
        let n = line@.len() as int;
        assert(line@.subrange(0, n) =~= line@);
        if n > 0 && line@.last() == '\n' {
            assert(line@.subrange(0, n - 1) =~= line@.drop_last());
            if n > 1 {
                assert(line@.subrange(0, n - 2) =~= line@.drop_last().drop_last());
            }
        }
    }
    text::from_range(&chars, 0, to)
}

/// The lines of a `.gitignore` file, and whether they are all that it holds.
fn read_file_lines(content: &[u8]) -> (r: (Vec<String>, bool))
    ensures
        text::views(r.0@) == file_lines(content@),
        r.1 == is_all_text(content@),
{
    let mut lines: Vec<String> = Vec::new();
    let mut at: usize = 0;
    proof {
        assert(content@.skip(0) =~= content@);
        assert(text::views(lines@) + text_lines(content@) =~= text_lines(content@));
    }
    while at < content.len()
        invariant_except_break
            at <= content@.len(),
            text::views(lines@) + text_lines(content@.skip(at as int)) == text_lines(content@),
            is_all_text(content@.skip(at as int)) == is_all_text(content@),
        ensures
            at <= content@.len(),
            text::views(lines@) == text_lines(content@),
            (at == content@.len()) == is_all_text(content@),
        decreases content@.len() - at,
    {
        let ghost rest = content@.skip(at as int);
        let ghost before = text::views(lines@);
        let end = line_end(content, at);
        let line = vstd::slice::slice_subrange(content, at, end);
        assert(line@ =~= rest.take(line_size(rest) as int));
        match text::from_utf8(line) {
            Some(found) => {
                proof {
                    vstd::utf8::encode_utf8_decode_utf8(found@);
                }
                let shown = strip_line_end(&found);
                let ghost added = shown@;
                lines.push(shown);
                assert(text::views(lines@) =~= before.push(added));
                assert(rest.skip(line_size(rest) as int) =~= content@.skip(end as int));
                assert(before + (seq![added] + text_lines(content@.skip(end as int)))
                    =~= text::views(lines@) + text_lines(content@.skip(end as int)));
                at = end;
                if at == content.len() {
                    assert(content@.skip(at as int) =~= seq![]);
                    assert(text::views(lines@) + seq![] =~= text::views(lines@));
                }
            },
            None => {
                assert(before + seq![] =~= before);
                break;
            },
        }
    }
    let ghost all = text::views(lines@);
    if lines.len() > 0 {
        let first = text::trim_leading(&lines[0], '\u{feff}');
        lines.set(0, first);
        assert(text::views(lines@) =~= all.update(0, first@));
    }
    (lines, at == content.len())
}

/// Adds the lines of a `.gitignore` file to a builder, and gives what is wrong with them.
fn add_file_lines(builder: &mut GitignoreBuilder, path: &str, lines: &Vec<String>) -> (r: Vec<String>)
    requires
        builder_lines(*old(builder)).len() == 0,
    ensures
        builder_root(*final(builder)) == builder_root(*old(builder)),
        builder_lines(*final(builder)) == valid_lines(text::views(lines@)),
        text::views(r@) == gitignore_errors(path@, text::views(lines@)),
{
    let ghost all = text::views(lines@);
    let mut errors: Vec<String> = Vec::new();
    let mut i: usize = 0;
    proof {
        assert(all.take(0) =~= seq![]);
        assert(builder_lines(*builder) =~= seq![]);
        assert(text::views(errors@) =~= seq![]);
    }
    while i < lines.len()
        invariant
            i <= lines@.len(),
            all == text::views(lines@),
            builder_root(*builder) == builder_root(*old(builder)),
            builder_lines(*builder) == valid_lines(all.take(i as int)),
            text::views(errors@) == gitignore_errors(path@, all.take(i as int)),
        decreases lines@.len() - i,
    {
        proof {
            assert(all.take(i + 1).drop_last() =~= all.take(i as int));
            assert(all.take(i + 1).last() == lines@[i as int]@);
        }
        let ghost before = text::views(errors@);
        if let Some(message) = add_line(builder, path, &lines[i]) {
            let number = text::decimal_usize(i + 1);
            let mut error = text::copied(path);
            error.append(": line ");
            error.append(&number);
            error.append(": ");
            error.append(&message);
            errors.push(error);
            assert(text::views(errors@) =~= before.push(error@));
        }
        i += 1;
    }
    assert(all.take(i as int) =~= all);
    errors
}

/// The matcher for the `.gitignore` file of a directory, with warnings where it
/// cannot be read or not in full.
pub fn build_gitignore_file(
    root: &str,
    source: &GitignoreSource,
    warnings: &mut Vec<String>,
) -> (r: Gitignore)
    ensures
        rules_of(r) == rule_set(root@, gitignore_lines(*source)),
        text::views(final(warnings)@) == text::views(old(warnings)@) + load_warnings(
            root@,
            *source,
        ) + build_warnings(".gitignore"@, gitignore_lines(*source)),
{
    let mut builder = new_builder(root);
    let path = paths::join_path(root, ".gitignore");
    let ghost start = text::views(warnings@);
    match source {
        GitignoreSource::Missing => {
            assert(builder_lines(builder) =~= valid_lines(seq![]));
            assert(text::views(warnings@) =~= start + load_warnings(root@, *source));
        },
        GitignoreSource::Unreadable(message) => {
            let mut warning = text::copied("Could not load ");
            warning.append(&path);
            warning.append(": ");
            warning.append(&path);
            warning.append(": ");
            warning.append(message);
            warnings.push(warning);
            assert(builder_lines(builder) =~= valid_lines(seq![]));
            assert(text::views(warnings@) =~= start + load_warnings(root@, *source));
        },
        GitignoreSource::Content(content) => {
            let (lines, complete) = read_file_lines(content);
            let mut errors = add_file_lines(&mut builder, &path, &lines);
            if !complete {
                let ghost before = text::views(errors@);
                proof {
                    lemma_fewer_lines(content@);
                    assert(text::views(lines@).len() < content.len());
                }
                let number = text::decimal_usize(lines.len() + 1);
                let mut error = text::copied(&path);
                error.append(": line ");
                error.append(&number);
                error.append(": stream did not contain valid UTF-8");
                errors.push(error);
                assert(text::views(errors@) =~= before.push(error@));
            }
            if errors.len() > 0 {
                let all = text::join(&errors, "\n");
                let mut warning = text::copied("Could not load ");
                warning.append(&path);
                warning.append(": ");
                warning.append(&all);
                warnings.push(warning);
                assert(text::views(warnings@) =~= start + seq![warning@]);
            }
            assert(text::views(warnings@) =~= start + load_warnings(root@, *source));
        },
    }
    build_or_empty(builder, root, ".gitignore", warnings)
}

/// What a filter goes by: the policy's patterns, and the rules of the
/// `.gitignore` files that are known, each with its directory; and what is said of
/// patterns and files that could not be used.
#[verifier::ext_equal]
pub struct FilterRules {
    pub enabled: bool,
    pub root: Seq<char>,
    pub included: RuleSet,
    pub excluded: RuleSet,
    pub include_patterns: Seq<Seq<char>>,
    pub gitignores: Seq<(Seq<char>, RuleSet)>,
    pub warnings: Seq<Seq<char>>,
}

/// `path` as seen from the root of the project; all of it where it does not lie in
/// the project.
pub open spec fn project_path(root: Seq<char>, path: Seq<char>) -> Seq<char> {
    paths::seen_from(root, path)
}

/// A pattern reduced to the path that it starts with.
pub open spec fn pattern_path(pattern: Seq<char>) -> Seq<char> {
    text::without_trailing(
        text::without_suffixes(
            text::without_leading(text::without_leading(text::trimmed(pattern), '!'), '/'),
            "/**"@,
        ),
        '/',
    )
}

/// Whether a pattern speaks of something below the directory.
pub open spec fn may_hold_included(dir: Seq<char>, patterns: Seq<Seq<char>>) -> bool {
    let shown = paths::slashed(dir);
    let prefix = text::without_trailing(text::without_leading(shown, '/'), '/') + seq!['/'];
    shown.len() == 0 || exists|i: int|
        0 <= i < patterns.len() && prefix.is_prefix_of(pattern_path(#[trigger] patterns[i]))
}

/// The directory that is reached from `base` along the given parts.
pub open spec fn descended(base: Seq<char>, list: Seq<paths::Part>) -> Seq<char>
    decreases list.len(),
{
    if list.len() == 0 {
        base
    } else {
        paths::below(descended(base, list.drop_last()), paths::part_name(list.last()))
    }
}

/// The directories whose `.gitignore` files speak of a path: from the root of
/// the project down to the directory that holds it.
pub open spec fn gitignore_dirs(root: Seq<char>, path: Seq<char>) -> Seq<Seq<char>> {
    let list = paths::parts(path);
    let n = paths::parts(root).len() as int;
    if !paths::is_inside(root, path) || list.len() == n {
        seq![root]
    } else {
        Seq::new((list.len() - n) as nat, |k: int| descended(root, list.subrange(n, n + k)))
    }
}

/// The rules of the `.gitignore` file of a directory, where it is known.
pub open spec fn known_rules(gitignores: Seq<(Seq<char>, RuleSet)>, dir: Seq<char>) -> Option<
    RuleSet,
>
    decreases gitignores.len(),
{
    if gitignores.len() == 0 {
        None
    } else if gitignores[0].0 == dir {
        Some(gitignores[0].1)
    } else {
        known_rules(gitignores.skip(1), dir)
    }
}

/// Whether the `.gitignore` files of the given directories hide a path. The
/// last of them that says anything decides.
pub open spec fn hidden_by_dirs(
    gitignores: Seq<(Seq<char>, RuleSet)>,
    dirs: Seq<Seq<char>>,
    path: Seq<char>,
    is_dir: bool,
) -> bool
    decreases dirs.len(),
{
    if dirs.len() == 0 {
        false
    } else {
        let before = hidden_by_dirs(gitignores, dirs.drop_last(), path, is_dir);
        match known_rules(gitignores, dirs.last()) {
            Some(rules) => match decision(rules, path, is_dir) {
                Decision::Ignore => true,
                Decision::Whitelist => false,
                Decision::Undecided => before,
            },
            None => before,
        }
    }
}

/// Whether the `.gitignore` files hide a path.
pub open spec fn gitignored(rules: FilterRules, path: Seq<char>, is_dir: bool) -> bool {
    hidden_by_dirs(
        rules.gitignores,
        gitignore_dirs(rules.root, path),
        path,
        is_dir,
    )
}

/// Whether the tools may show a path. What is excluded is hidden, and what is
/// included is shown, with the directories on the way to it. Of the rest, names
/// that start with a dot are hidden, and what the `.gitignore` files say.
pub open spec fn visible(rules: FilterRules, path: Seq<char>, is_dir: bool) -> bool {
    let rel = project_path(rules.root, path);
    if !rules.enabled {
        true
    } else if decision(rules.excluded, rel, is_dir) is Ignore {
        false
    } else if decision(rules.included, rel, is_dir) is Ignore {
        true
    } else if is_dir && may_hold_included(rel, rules.include_patterns) {
        true
    } else if paths::has_hidden_part(rel) {
        false
    } else {
        !gitignored(rules, path, is_dir)
    }
}

/// Whether the rules can be asked whether a path may be shown, as far as they
/// need to be.
pub open spec fn can_tell(rules: FilterRules, path: Seq<char>, is_dir: bool) -> bool {
    let rel = project_path(rules.root, path);
    let dirs = gitignore_dirs(rules.root, path);
    rules.enabled ==> {
        &&& is_askable(rules.excluded, rel)
        &&& !(decision(rules.excluded, rel, is_dir) is Ignore) ==> {
            &&& is_askable(rules.included, rel)
            &&& !(decision(rules.included, rel, is_dir) is Ignore) && !(is_dir && may_hold_included(
                rel,
                rules.include_patterns,
            )) && !paths::has_hidden_part(rel) ==> forall|i: int|
                0 <= i < dirs.len() ==> match known_rules(rules.gitignores, #[trigger] dirs[i]) {
                    Some(known) => is_askable(known, path),
                    None => true,
                }
        }
    }
}

/// A filter for the paths of a project.
#[derive(Debug)]
pub struct PathFilter {
    enabled: bool,
    root: String,
    gitignores: Vec<(String, Gitignore)>,
    included: Gitignore,
    excluded: Gitignore,
    include_patterns: Vec<String>,
    warnings: Vec<String>,
}

/// The rules that are known, each with its directory.
pub open spec fn known_view(gitignores: Seq<(String, Gitignore)>) -> Seq<(Seq<char>, RuleSet)> {
    Seq::new(gitignores.len(), |i: int| (gitignores[i].0@, rules_of(gitignores[i].1)))
}

impl View for PathFilter {
    type V = FilterRules;

    closed spec fn view(&self) -> FilterRules {
        FilterRules {
            enabled: self.enabled,
            root: self.root@,
            included: rules_of(self.included),
            excluded: rules_of(self.excluded),
            include_patterns: text::views(self.include_patterns@),
            gitignores: known_view(self.gitignores@),
            warnings: text::views(self.warnings@),
        }
    }
}

/// What is said of the patterns and the `.gitignore` file that a filter starts with.
pub open spec fn setup_warnings(
    root: Seq<char>,
    policy: Policy,
    gitignore: GitignoreSource,
) -> Seq<Seq<char>> {
    policy.warnings + load_warnings(root, gitignore) + build_warnings(
        ".gitignore"@,
        gitignore_lines(gitignore),
    ) + pattern_warnings("include.txt"@, policy.include_patterns) + build_warnings(
        "include.txt"@,
        policy.include_patterns,
    ) + pattern_warnings("exclude.txt"@, policy.exclude_patterns) + build_warnings(
        "exclude.txt"@,
        policy.exclude_patterns,
    )
}

/// The rules that a filter starts with.
pub open spec fn setup_rules(
    root: Seq<char>,
    policy: Policy,
    gitignore: GitignoreSource,
) -> FilterRules {
    FilterRules {
        enabled: policy.enabled,
        root,
        included: rule_set(root, policy.include_patterns),
        excluded: rule_set(root, policy.exclude_patterns),
        include_patterns: policy.include_patterns,
        gitignores: seq![(root, rule_set(root, gitignore_lines(gitignore)))],
        warnings: setup_warnings(root, policy, gitignore),
    }
}

impl PathFilter {
    /// Whether every rule is relative to the directory that it belongs to.
    pub open spec fn well_formed(&self) -> bool {
        &&& are_below(self@.included, self@.root)
        &&& are_below(self@.excluded, self@.root)
        &&& forall|i: int|
            0 <= i < self@.gitignores.len() ==> are_below(
                (#[trigger] self@.gitignores[i]).1,
                self@.gitignores[i].0,
            )
    }

    /// A filter for the project under `project_root`, whose own `.gitignore`
    /// file is `gitignore`.
    pub fn new(project_root: &str, config: PathFilterConfig, gitignore: &GitignoreSource) -> (r: Self)
        ensures
            r.well_formed(),
            r@ == setup_rules(project_root@, config@, *gitignore),
    {
        let mut warnings = config.warnings;
        let own = build_gitignore_file(project_root, gitignore, &mut warnings);
        let included = build_pattern_set(
            project_root,
            "include.txt",
            &config.include_patterns,
            &mut warnings,
        );
        let excluded = build_pattern_set(
            project_root,
            "exclude.txt",
            &config.exclude_patterns,
            &mut warnings,
        );
        let mut gitignores: Vec<(String, Gitignore)> = Vec::new();
        gitignores.push((text::copied(project_root), own));
        let r = PathFilter {
            enabled: config.enabled,
            root: text::copied(project_root),
            gitignores,
            included,
            excluded,
            include_patterns: config.include_patterns,
            warnings,
        };
        assert(known_view(r.gitignores@) =~= seq![(project_root@, rules_of(own))]);
        r
    }

    /// What is said of patterns and files that could not be used.
    pub fn warnings(&self) -> (r: &Vec<String>)
        ensures
            text::views(r@) == self@.warnings,
    {
        &self.warnings
    }

    /// Whether the filter is on.
    pub fn is_enabled(&self) -> (r: bool)
        ensures
            r == self@.enabled,
    {
        self.enabled
    }

    /// The directories whose `.gitignore` files speak of a path.
    pub fn gitignore_dirs(&self, path: &str) -> (r: Vec<String>)
        ensures
            text::views(r@) == gitignore_dirs(self@.root, path@),
    {
        let list = paths::split_path(path);
        let root_list = paths::split_path(&self.root);
        let n = root_list.len();
        let mut dirs: Vec<String> = Vec::new();
        if !paths::starts_with_path(path, &self.root) || list.len() == n {
            dirs.push(text::copied(&self.root));
            assert(text::views(dirs@) =~= seq![self@.root]);
            return dirs;
        }
        let ghost all = paths::parts_view(list@);
        let mut dir = text::copied(&self.root);
        let mut k: usize = n;
        assert(all.subrange(n as int, n as int) =~= seq![]);
        while k < list.len()
            invariant
                n <= k <= list@.len(),
                all == paths::parts_view(list@),
                dir@ == descended(self@.root, all.subrange(n as int, k as int)),
                dirs@.len() == k - n,
                forall|j: int|
                    0 <= j < dirs@.len() ==> (#[trigger] dirs@[j])@ == descended(
                        self@.root,
                        all.subrange(n as int, n + j),
                    ),
            decreases list@.len() - k,
        {
            let next = paths::join_path(&dir, &paths::write_part(&list[k]));
            dirs.push(dir);
            proof {
                let longer = all.subrange(n as int, k + 1);
                assert(longer.drop_last() =~= all.subrange(n as int, k as int));
                assert(longer.last() == list@[k as int]@);
            }
            dir = next;
            k += 1;
        }
        assert(text::views(dirs@) =~= gitignore_dirs(self@.root, path@));
        dirs
    }

    /// Where the rules of a directory stand among those that are known.
    fn find_rules(&self, dir: &str) -> (r: Option<usize>)
        ensures
            match r {
                Some(i) => i < self.gitignores@.len() && known_rules(self@.gitignores, dir@) == Some(
                    rules_of(self.gitignores@[i as int].1),
                ) && self.gitignores@[i as int].0@ == dir@,
                None => known_rules(self@.gitignores, dir@) is None,
            },
    {
        let ghost all = self@.gitignores;
        let mut i: usize = 0;
        assert(all.skip(0) =~= all);
        while i < self.gitignores.len()
            invariant
                i <= self.gitignores@.len(),
                all == self@.gitignores,
                known_rules(all.skip(i as int), dir@) == known_rules(all, dir@),
            decreases self.gitignores@.len() - i,
        {
            assert(all.skip(i as int)[0] == (
                self.gitignores@[i as int].0@,
                rules_of(self.gitignores@[i as int].1),
            ));
            if text::same(&self.gitignores[i].0, dir) {
                return Some(i);
            }
            assert(all.skip(i as int).skip(1) =~= all.skip(i + 1));
            i += 1;
        }
        None
    }

    /// Whether the `.gitignore` file of a directory is known.
    pub fn knows_dir(&self, dir: &str) -> (r: bool)
        ensures
            r == (known_rules(self@.gitignores, dir@) is Some),
    {
        self.find_rules(dir).is_some()
    }

    /// Makes the `.gitignore` file of a directory known, where it is not yet.
    pub fn load_gitignore(&mut self, dir: &str, source: &GitignoreSource)
        requires
            old(self).well_formed(),
        ensures
            final(self).well_formed(),
            final(self)@ == (FilterRules {
                gitignores: if known_rules(old(self)@.gitignores, dir@) is Some {
                    old(self)@.gitignores
                } else {
                    old(self)@.gitignores.push((dir@, rule_set(dir@, gitignore_lines(*source))))
                },
                ..old(self)@
            }),
    {
        if self.knows_dir(dir) {
            return;
        }
        let ghost before = self@.gitignores;
        let mut unheard: Vec<String> = Vec::new();
        let matcher = build_gitignore_file(dir, source, &mut unheard);
        self.gitignores.push((text::copied(dir), matcher));
        assert(self@.gitignores =~= before.push((dir@, rules_of(matcher))));
        assert forall|i: int| 0 <= i < self@.gitignores.len() implies are_below(
            (#[trigger] self@.gitignores[i]).1,
            self@.gitignores[i].0,
        ) by {
            if i < before.len() {
                assert(self@.gitignores[i] == before[i]);
            }
        }
    }

    /// Whether the `.gitignore` files that are known hide a path.
    fn matches_gitignore(&self, path: &str, is_dir: bool) -> (r: bool)
        requires
            forall|i: int|
                0 <= i < gitignore_dirs(self@.root, path@).len() ==> match known_rules(
                    self@.gitignores,
                    #[trigger] gitignore_dirs(self@.root, path@)[i],
                ) {
                    Some(known) => is_askable(known, path@),
                    None => true,
                },
        ensures
            r == gitignored(self@, path@, is_dir),
    {
        let dirs = self.gitignore_dirs(path);
        let ghost all = text::views(dirs@);
        let mut ignored = false;
        let mut i: usize = 0;
        assert(all.take(0) =~= seq![]);
        while i < dirs.len()
            invariant
                forall|k: int|
                    0 <= k < gitignore_dirs(self@.root, path@).len() ==> match known_rules(
                        self@.gitignores,
                        #[trigger] gitignore_dirs(self@.root, path@)[k],
                    ) {
                        Some(known) => is_askable(known, path@),
                        None => true,
                    },
                i <= dirs@.len(),
                all == text::views(dirs@),
                all == gitignore_dirs(self@.root, path@),
                ignored == hidden_by_dirs(self@.gitignores, all.take(i as int), path@, is_dir),
            decreases dirs@.len() - i,
        {
            proof {
                assert(all.take(i + 1).drop_last() =~= all.take(i as int));
                assert(all.take(i + 1).last() == all[i as int]);
                assert(all[i as int] == dirs@[i as int]@);
                assert(gitignore_dirs(self@.root, path@)[i as int] == all[i as int]);
            }
            if let Some(at) = self.find_rules(&dirs[i]) {
                match decide(&self.gitignores[at].1, path, is_dir) {
                    Decision::Ignore => {
                        ignored = true;
                    },
                    Decision::Whitelist => {
                        ignored = false;
                    },
                    Decision::Undecided => {},
                }
            }
            i += 1;
        }
        assert(all.take(i as int) =~= all);
        ignored
    }

    /// Whether the tools may show a path.
    pub fn is_visible(&self, path: &str, is_dir: bool) -> (r: bool)
        requires
            can_tell(self@, path@, is_dir),
        ensures
            r == visible(self@, path@, is_dir),
    {
        if !self.enabled {
            return true;
        }
        let rel = paths::view_from(path, &self.root);
        if let Decision::Ignore = decide(&self.excluded, &rel, is_dir) {
            return false;
        }
        if let Decision::Ignore = decide(&self.included, &rel, is_dir) {
            return true;
        }
        if is_dir && include_may_match_descendant(&rel, &self.include_patterns) {
            return true;
        }
        if paths::has_dot_component(&rel) {
            return false;
        }
        !self.matches_gitignore(path, is_dir)
    }
}

/// What a matcher looks at does not start at the root, where the path has no
/// two slashes side by side and starts with the matcher's directory if at the root.
proof fn lemma_strips(base: Seq<char>, path: Seq<char>)
    requires
        paths::no_double_slash(path),
        paths::is_rooted(path) ==> base.is_prefix_of(path),
    ensures
        !paths::is_rooted(stripped(base, path)),
{
    let shown = without_dot_slash(path);
    let offset = path.len() - shown.len();
    assert forall|i: int| 0 <= i < shown.len() implies #[trigger] shown[i] == path[i + offset] by {
    }
    if offset == 2 && shown.len() > 0 {
        assert(!(path[1] == '/' && path[2] == '/'));
        assert(shown[0] == path[2]);
    }
    if paths::is_rooted(path) {
        if base.len() == 0 {
            assert(base =~= seq![]);
            paths::lemma_parts_of_nothing();
        } else {
            assert(base[0] == path.subrange(0, base.len() as int)[0]);
            assert(paths::parts(base)[0] is Root);
        }
    }
    if !is_current_dir(base) && shown.contains('/') && base.is_prefix_of(shown) {
        let rest = shown.skip(base.len() as int);
        if rest.len() > 1 && rest[0] == '/' {
            let at = base.len() + offset;
            assert(rest[0] == shown[base.len() as int]);
            assert(rest[1] == shown[base.len() as int + 1]);
            assert(!(path[at] == '/' && path[at + 1] == '/'));
            assert(rest.skip(1)[0] == rest[1]);
        }
    } else if paths::is_rooted(shown) {
        assert(offset == 0);
        assert(shown =~= path);
        assert(shown.contains(shown[0]));
    }
}

/// The rules can be asked about every path of the project that is written tidily.
pub proof fn lemma_can_tell(rules: FilterRules, path: Seq<char>, is_dir: bool)
    requires
        are_below(rules.included, rules.root),
        are_below(rules.excluded, rules.root),
        forall|i: int|
            0 <= i < rules.gitignores.len() ==> are_below(
                (#[trigger] rules.gitignores[i]).1,
                rules.gitignores[i].0,
            ),
        paths::is_tidy(rules.root),
        paths::is_tidy(path),
        paths::is_inside(rules.root, path),
    ensures
        can_tell(rules, path, is_dir),
{
    let root = rules.root;
    let rel = project_path(root, path);
    let dirs = gitignore_dirs(root, path);
    let n = paths::parts(root).len();
    paths::lemma_parts_shape(path);
    paths::lemma_parts_text_tidy(paths::parts(path));
    paths::lemma_remaining(path, n);
    if n == 0 {
        paths::lemma_no_parts(root);
        assert(without_dot_slash(root) =~= seq![]);
        assert(rel.subrange(0, 0) =~= seq![]);
    }
    lemma_strips(without_dot_slash(root), rel);
    assert forall|i: int| 0 <= i < dirs.len() implies match known_rules(
        rules.gitignores,
        #[trigger] dirs[i],
    ) {
        Some(known) => is_askable(known, path),
        None => true,
    } by {
        lemma_known_root(rules.gitignores, dirs[i]);
        lemma_dir_strips(root, path, i);
    }
}

/// The rules that are known for a directory are relative to it.
proof fn lemma_known_root(gitignores: Seq<(Seq<char>, RuleSet)>, dir: Seq<char>)
    requires
        forall|i: int|
            0 <= i < gitignores.len() ==> are_below(
                (#[trigger] gitignores[i]).1,
                gitignores[i].0,
            ),
    ensures
        known_rules(gitignores, dir) matches Some(rules) ==> are_below(rules, dir),
    decreases gitignores.len(),
{
    if gitignores.len() > 0 && gitignores[0].0 != dir {
        let rest = gitignores.skip(1);
        assert forall|i: int| 0 <= i < rest.len() implies are_below(
            (#[trigger] rest[i]).1,
            rest[i].0,
        ) by {
            assert(rest[i] == gitignores[i + 1]);
        }
        lemma_known_root(rest, dir);
    }
}

/// Going down along the parts of a path writes them behind those of the start.
proof fn lemma_descended(list: Seq<paths::Part>, n: int, k: int)
    requires
        paths::is_part_list(list),
        0 <= n <= k <= list.len(),
    ensures
        descended(paths::parts_text(list.take(n)), list.subrange(n, k)) == paths::parts_text(
            list.take(k),
        ),
    decreases k - n,
{
    if k == n {
        assert(list.subrange(n, k) =~= seq![]);
    } else {
        lemma_descended(list, n, k - 1);
        let longer = list.subrange(n, k);
        assert(longer.drop_last() =~= list.subrange(n, k - 1));
        assert(longer.last() == list[k - 1]);
        let front = list.take(k - 1);
        assert(front.push(list[k - 1]) =~= list.take(k));
        assert(paths::is_part_list(list.take(k))) by {
            assert forall|i: int| 0 <= i < k implies match #[trigger] list.take(k)[i] {
                paths::Part::Name(name) => paths::is_plain_name(name),
                paths::Part::Root => i == 0,
                _ => true,
            } by {
                assert(list.take(k)[i] == list[i]);
            }
        }
        paths::lemma_below_written(front, list[k - 1]);
    }
}

/// A tidy path can be given to the matchers of the directories that it lies in.
proof fn lemma_dir_strips(root: Seq<char>, path: Seq<char>, i: int)
    requires
        paths::is_tidy(root),
        paths::is_tidy(path),
        paths::is_inside(root, path),
        0 <= i < gitignore_dirs(root, path).len(),
    ensures
        !paths::is_rooted(stripped(without_dot_slash(gitignore_dirs(root, path)[i]), path)),
{
    let list = paths::parts(path);
    let n = paths::parts(root).len() as int;
    let dir = gitignore_dirs(root, path)[i];
    paths::lemma_parts_shape(path);
    paths::lemma_parts_text_tidy(list);
    assert(list.subrange(0, n) =~= list.take(n));
    assert(root == paths::parts_text(list.take(n)));
    let k = if list.len() == n {
        n
    } else {
        n + i
    };
    lemma_descended(list, n, k);
    assert(list.subrange(n, n) =~= seq![]);
    assert(dir == paths::parts_text(list.take(k)));
    if paths::is_rooted(path) {
        paths::lemma_parts_text_prefix(list, k);
        let front = list.take(k);
        if k == 0 {
            assert(paths::part_texts(front) =~= seq![]);
            assert(dir =~= seq![]);
        } else {
            assert(front[0] == list[0]);
            assert(dir[0] == '/');
        }
        assert(without_dot_slash(dir) == dir);
    }
    lemma_strips(without_dot_slash(dir), path);
}

/// A pattern reduced to the path that it starts with.
fn reduce_pattern(pattern: &str) -> (r: String)
    ensures
        r@ == pattern_path(pattern@),
{
    let shown = text::trim(pattern);
    let positive = text::trim_leading(&shown, '!');
    let inner = text::trim_leading(&positive, '/');
    let open = text::trim_suffixes(&inner, "/**");
    text::trim_trailing(&open, '/')
}

/// Whether a pattern speaks of something below the directory.
pub fn include_may_match_descendant(dir: &str, patterns: &Vec<String>) -> (r: bool)
    ensures
        r == may_hold_included(dir@, text::views(patterns@)),
{
    let shown = paths::with_slashes(dir);
    if shown.as_str().is_empty() {
        return true;
    }
    let front = text::trim_leading(&shown, '/');
    let mut prefix = text::trim_trailing(&front, '/');
    let ghost name = prefix@;
    prefix.push('/');
    assert(prefix@ =~= name + seq!['/']);
    let mut i: usize = 0;
    while i < patterns.len()
        invariant
            i <= patterns@.len(),
            prefix@ == text::without_trailing(
                text::without_leading(paths::slashed(dir@), '/'),
                '/',
            ) + seq!['/'],
            forall|k: int|
                0 <= k < i ==> !prefix@.is_prefix_of(
                    pattern_path(#[trigger] text::views(patterns@)[k]),
                ),
        decreases patterns@.len() - i,
    {
        assert(text::views(patterns@)[i as int] == patterns@[i as int]@);
        let reduced = reduce_pattern(&patterns[i]);
        if text::starts_with(&reduced, &prefix) {
            return true;
        }
        i += 1;
    }
    false
}

/// A filter that is off shows everything.
pub proof fn law_disabled_shows_everything(rules: FilterRules, path: Seq<char>, is_dir: bool)
    requires
        !rules.enabled,
    ensures
        visible(rules, path, is_dir),
{
}

/// What is excluded is hidden, whatever is included.
pub proof fn law_excluded_is_hidden(rules: FilterRules, path: Seq<char>, is_dir: bool)
    requires
        rules.enabled,
        decision(rules.excluded, project_path(rules.root, path), is_dir) is Ignore,
    ensures
        !visible(rules, path, is_dir),
{
}

/// What is included, and not excluded, is shown, whatever the `.gitignore`
/// files say and even where a name starts with a dot.
pub proof fn law_included_is_shown(rules: FilterRules, path: Seq<char>, is_dir: bool)
    requires
        decision(rules.included, project_path(rules.root, path), is_dir) is Ignore,
        !(decision(rules.excluded, project_path(rules.root, path), is_dir) is Ignore),
    ensures
        visible(rules, path, is_dir),
{
}

/// A name that starts with a dot hides a file that is not included.
pub proof fn law_dot_files_are_hidden(rules: FilterRules, path: Seq<char>)
    requires
        rules.enabled,
        !(decision(rules.included, project_path(rules.root, path), false) is Ignore),
        paths::has_hidden_part(project_path(rules.root, path)),
    ensures
        !visible(rules, path, false),
{
}

/// Of the directories down to the one that holds a file, the last one whose
/// `.gitignore` file says anything of the file decides.
pub proof fn law_nearest_gitignore_decides(
    gitignores: Seq<(Seq<char>, RuleSet)>,
    dirs: Seq<Seq<char>>,
    at: int,
    path: Seq<char>,
    is_dir: bool,
)
    requires
        0 <= at < dirs.len(),
        known_rules(gitignores, dirs[at]) matches Some(rules) && !(decision(
            rules,
            path,
            is_dir,
        ) is Undecided),
        forall|k: int|
            at < k < dirs.len() ==> match known_rules(gitignores, #[trigger] dirs[k]) {
                Some(rules) => decision(rules, path, is_dir) is Undecided,
                None => true,
            },
    ensures
        hidden_by_dirs(gitignores, dirs, path, is_dir) == (decision(
            known_rules(gitignores, dirs[at]).unwrap(),
            path,
            is_dir,
        ) is Ignore),
    decreases dirs.len(),
{
    if at < dirs.len() - 1 {
        let rest = dirs.drop_last();
        assert(match known_rules(gitignores, dirs[dirs.len() - 1]) {
            Some(rules) => decision(rules, path, is_dir) is Undecided,
            None => true,
        });
        assert(rest[at] == dirs[at]);
        assert forall|k: int| at < k < rest.len() implies match known_rules(
            gitignores,
            #[trigger] rest[k],
        ) {
            Some(rules) => decision(rules, path, is_dir) is Undecided,
            None => true,
        } by {
            assert(rest[k] == dirs[k]);
        }
        law_nearest_gitignore_decides(gitignores, rest, at, path, is_dir);
    }
}

/// A path that no pattern speaks of, that is no way to an included one and that has no name
/// with a dot at its start is shown unless the `.gitignore` files hide it.
pub proof fn law_other_paths_go_by_gitignore(rules: FilterRules, path: Seq<char>, is_dir: bool)
    requires
        rules.enabled,
        ({
            let rel = paths::seen_from(rules.root, path);
            &&& !(decision(rules.excluded, rel, is_dir) is Ignore)
            &&& !(decision(rules.included, rel, is_dir) is Ignore)
            &&& !is_dir || !may_hold_included(rel, rules.include_patterns)
            &&& forall|i: int|
                0 <= i < paths::parts(rel).len() ==> match #[trigger] paths::parts(rel)[i] {
                    paths::Part::Name(name) => name.len() > 0 && name[0] != '.',
                    _ => true,
                }
        }),
    ensures
        visible(rules, path, is_dir) == !hidden_by_dirs(
            rules.gitignores,
            gitignore_dirs(rules.root, path),
            path,
            is_dir,
        ),
{
}

/// A directory on the way to an included path is shown unless it is excluded.
pub proof fn law_way_to_included_paths_is_shown(rules: FilterRules, path: Seq<char>)
    requires
        !(decision(rules.excluded, paths::seen_from(rules.root, path), true) is Ignore),
        may_hold_included(paths::seen_from(rules.root, path), rules.include_patterns),
    ensures
        visible(rules, path, true),
{
}

/// Where no `.gitignore` file says anything of a path, none hides it.
pub proof fn law_silent_gitignores_hide_nothing(
    gitignores: Seq<(Seq<char>, RuleSet)>,
    dirs: Seq<Seq<char>>,
    path: Seq<char>,
    is_dir: bool,
)
    requires
        forall|k: int|
            0 <= k < dirs.len() ==> match known_rules(gitignores, #[trigger] dirs[k]) {
                Some(rules) => decision(rules, path, is_dir) is Undecided,
                None => true,
            },
    ensures
        !hidden_by_dirs(gitignores, dirs, path, is_dir),
    decreases dirs.len(),
{
    if dirs.len() > 0 {
        let rest = dirs.drop_last();
        assert forall|k: int| 0 <= k < rest.len() implies match known_rules(
            gitignores,
            #[trigger] rest[k],
        ) {
            Some(rules) => decision(rules, path, is_dir) is Undecided,
            None => true,
        } by {
            assert(rest[k] == dirs[k]);
        }
        law_silent_gitignores_hide_nothing(gitignores, rest, path, is_dir);
        assert(dirs.last() == dirs[dirs.len() - 1]);
    }
}

/// The `.gitignore` files that speak of a path are those of the directories that it lies
/// in, from the root of the project down: each is the one below the directory before it,
/// and the path itself is not among them.
pub proof fn law_gitignores_of_all_parents_count(root: Seq<char>, path: Seq<char>)
    requires
        paths::is_inside(root, path),
        paths::parts(path).len() > paths::parts(root).len(),
    ensures
        ({
            let list = paths::parts(path);
            let n = paths::parts(root).len() as int;
            let dirs = gitignore_dirs(root, path);
            &&& dirs.len() == list.len() - n
            &&& dirs[0] == root
            &&& forall|k: int|
                0 < k < dirs.len() ==> #[trigger] dirs[k] == paths::below(
                    dirs[k - 1],
                    match list[n + k - 1] {
                        paths::Part::Name(name) => name,
                        paths::Part::Root => seq!['/'],
                        paths::Part::Cur => seq!['.'],
                        paths::Part::Parent => seq!['.', '.'],
                    },
                )
        }),
{
    let list = paths::parts(path);
    let n = paths::parts(root).len() as int;
    let dirs = gitignore_dirs(root, path);
    assert(list.subrange(n, n) =~= seq![]);
    assert forall|k: int| 0 < k < dirs.len() implies #[trigger] dirs[k] == paths::below(
        dirs[k - 1],
        match list[n + k - 1] {
            paths::Part::Name(name) => name,
            paths::Part::Root => seq!['/'],
            paths::Part::Cur => seq!['.'],
            paths::Part::Parent => seq!['.', '.'],
        },
    ) by {
        let longer = list.subrange(n, n + k);
        assert(longer.drop_last() =~= list.subrange(n, n + k - 1));
        assert(longer.last() == list[n + k - 1]);
    }
}

/// The rules of a directory are those that were made known for it first.
pub proof fn law_first_known_rules_count(
    gitignores: Seq<(Seq<char>, RuleSet)>,
    dir: Seq<char>,
    i: int,
)
    requires
        0 <= i < gitignores.len(),
        gitignores[i].0 == dir,
        forall|j: int| 0 <= j < i ==> (#[trigger] gitignores[j]).0 != dir,
    ensures
        known_rules(gitignores, dir) == Some(gitignores[i].1),
    decreases i,
{
    if i > 0 {
        assert(gitignores[0].0 != dir);
        let rest = gitignores.skip(1);
        assert forall|j: int| 0 <= j < i - 1 implies (#[trigger] rest[j]).0 != dir by {
            assert(rest[j] == gitignores[j + 1]);
        }
        law_first_known_rules_count(rest, dir, i - 1);
    }
}

/// The rules that lines make are the lines that are rules, in order: no comment, no blank
/// line, and none that is refused. There are none where no matcher can be made of them.
pub proof fn law_rules_are_the_valid_lines(root: Seq<char>, lines: Seq<Seq<char>>)
    ensures
        ({
            let valid = lines.filter(
                |line: Seq<char>|
                    line_error(line) is None && text::trimmed_end(line).len() > 0 && line[0] != '#',
            );
            rule_set(root, lines).lines == (if build_error(valid) is None {
                valid
            } else {
                seq![]
            })
        }),
{
    lemma_valid_filter(lines);
}

/// The valid lines stay in their order.
proof fn lemma_valid_filter(lines: Seq<Seq<char>>)
    ensures
        valid_lines(lines) == lines.filter(
            |line: Seq<char>|
                line_error(line) is None && text::trimmed_end(line).len() > 0 && line[0] != '#',
        ),
    decreases lines.len(),
{
    reveal(Seq::filter);
    if lines.len() > 0 {
        lemma_valid_filter(lines.drop_last());
    }
}

/// Every pattern that is refused is told of, in order, with the file that it comes from and
/// the reason.
pub proof fn law_refused_patterns_are_told(
    source: Seq<char>,
    lines: Seq<Seq<char>>,
    line: Seq<char>,
)
    ensures
        pattern_warnings(source, lines.push(line)) == (match line_error(line) {
            Some(message) => pattern_warnings(source, lines).push(
                "Ignored invalid "@ + source + " pattern '"@ + line + "': "@ + message,
            ),
            None => pattern_warnings(source, lines),
        }),
        pattern_warnings(source, seq![]).len() == 0,
{
    assert(lines.push(line).drop_last() =~= lines);
}

/// A line of a `.gitignore` file is what stands before its line end, of one byte or two.
pub proof fn law_gitignore_is_read_line_by_line(line: Seq<char>, rest: Seq<u8>)
    requires
        !vstd::utf8::encode_utf8(line).contains(10u8),
        line.len() > 0 ==> line.last() != '\r' && line.last() != '\n',
    ensures
        text_lines(vstd::utf8::encode_utf8(line + seq!['\n']) + rest) == seq![line] + text_lines(
            rest,
        ),
        text_lines(vstd::utf8::encode_utf8(line + seq!['\r', '\n']) + rest) == seq![line]
            + text_lines(rest),
        line.len() > 0 ==> text_lines(vstd::utf8::encode_utf8(line)) == seq![line],
        text_lines(seq![]).len() == 0,
{
    let raw = vstd::utf8::encode_utf8(line);
    let short = line + seq!['\n'];
    let long = line + seq!['\r', '\n'];
    text::lemma_encode_concat(line, seq!['\n']);
    text::lemma_encode_concat(line, seq!['\r', '\n']);
    lemma_encoded_line_ends();
    let a = vstd::utf8::encode_utf8(short);
    let b = vstd::utf8::encode_utf8(long);
    assert(a =~= raw + seq![10u8]);
    assert(b =~= raw + seq![13u8, 10u8]);
    assert forall|i: int| 0 <= i < raw.len() implies raw[i] != 10 by {
        assert(raw.contains(raw[i]));
    }
    lemma_line_size_is(a + rest, raw.len() as int);
    lemma_line_size_is(b + rest, raw.len() as int + 1);
    assert((a + rest).take(a.len() as int) =~= a);
    assert((a + rest).skip(a.len() as int) =~= rest);
    assert((b + rest).take(b.len() as int) =~= b);
    assert((b + rest).skip(b.len() as int) =~= rest);
    vstd::utf8::encode_utf8_valid_utf8(short);
    vstd::utf8::encode_utf8_decode_utf8(short);
    vstd::utf8::encode_utf8_valid_utf8(long);
    vstd::utf8::encode_utf8_decode_utf8(long);
    assert(short.drop_last() =~= line);
    assert(long.drop_last() =~= line + seq!['\r']);
    assert(long.drop_last().drop_last() =~= line);
    assert(without_line_end(short) == line);
    assert(without_line_end(long) == line);
    if line.len() > 0 {
        vstd::utf8::encode_utf8_valid_utf8(line);
        vstd::utf8::encode_utf8_decode_utf8(line);
        lemma_open_line_size(raw);
        assert(raw.take(raw.len() as int) =~= raw);
        assert(raw.skip(raw.len() as int) =~= seq![]);
        assert(raw.len() > 0) by {
            if raw.len() == 0 {
                assert(raw =~= seq![]);
                vstd::utf8::encode_utf8_decode_utf8(Seq::<char>::empty());
                assert(vstd::utf8::encode_utf8(Seq::<char>::empty()) =~= seq![]);
            }
        }
        assert(without_line_end(line) == line);
        assert(text_lines(raw.skip(raw.len() as int)) =~= seq![]);
        assert(line_size(raw) == raw.len());
        assert(text_lines(raw) =~= seq![line]);
    }
}

/// The line ends as bytes.
proof fn lemma_encoded_line_ends()
    ensures
        vstd::utf8::encode_utf8(seq!['\n']) == seq![10u8],
        vstd::utf8::encode_utf8(seq!['\r', '\n']) == seq![13u8, 10u8],
{
    vstd::utf8::is_ascii_chars_encode_utf8(seq!['\n']);
    vstd::utf8::is_ascii_chars_encode_utf8(seq!['\r', '\n']);
    assert(vstd::utf8::encode_utf8(seq!['\n']) =~= seq![10u8]);
    assert(vstd::utf8::encode_utf8(seq!['\r', '\n']) =~= seq![13u8, 10u8]);
}

/// A line reaches to its first line end.
proof fn lemma_line_size_is(data: Seq<u8>, at: int)
    requires
        0 <= at < data.len(),
        data[at] == 10,
        forall|i: int| 0 <= i < at ==> data[i] != 10,
    ensures
        line_size(data) == at + 1,
    decreases at,
{
    if at > 0 {
        assert forall|i: int| 0 <= i < at - 1 implies data.skip(1)[i] != 10 by {
            assert(data[i + 1] != 10);
        }
        lemma_line_size_is(data.skip(1), at - 1);
    }
}

/// A line without a line end is all that is left.
proof fn lemma_open_line_size(data: Seq<u8>)
    requires
        forall|i: int| 0 <= i < data.len() ==> data[i] != 10,
    ensures
        line_size(data) == data.len(),
    decreases data.len(),
{
    if data.len() > 0 {
        assert forall|i: int| 0 <= i < data.skip(1).len() implies data.skip(1)[i] != 10 by {
            assert(data[i + 1] != 10);
        }
        lemma_open_line_size(data.skip(1));
    }
}

/// A mark of the byte order before the first line is no part of it; the other lines stay as
/// they are.
pub proof fn law_byte_order_mark_is_dropped(content: Vec<u8>)
    ensures
        ({
            let all = text_lines(content@);
            let lines = gitignore_lines(GitignoreSource::Content(content));
            &&& lines.len() == all.len()
            &&& forall|i: int| 0 < i < all.len() ==> #[trigger] lines[i] == all[i]
            &&& all.len() > 0 && (all[0].len() == 0 || all[0][0] != '\u{feff}') ==> lines[0]
                == all[0]
            &&& all.len() > 0 && all[0].len() > 0 && all[0][0] == '\u{feff}' && (all[0].len() == 1
                || all[0][1] != '\u{feff}') ==> lines[0] == all[0].skip(1)
        }),
{
    let all = text_lines(content@);
    if all.len() > 0 && all[0].len() > 0 && all[0][0] == '\u{feff}' {
        let rest = all[0].skip(1);
        if rest.len() > 0 {
            assert(rest[0] == all[0][1]);
        }
        if rest.len() == 0 || rest[0] != '\u{feff}' {
            assert(text::without_leading(rest, '\u{feff}') == rest);
        }
    }
}

/// A pattern speaks of what it names, whether it is negated, starts at the root, or ends
/// with a slash or with everything below.
pub proof fn law_patterns_are_reduced_to_their_path(plain: Seq<char>)
    requires
        plain.len() > 0,
        !text::is_space(plain[0]) && !text::is_space(plain.last()),
        plain[0] != '!' && plain[0] != '/',
        plain.last() != '/' && plain.last() != '*',
    ensures
        pattern_path(plain) == plain,
        pattern_path(seq!['!'] + plain) == plain,
        pattern_path(seq!['/'] + plain) == plain,
        pattern_path(plain + seq!['/']) == plain,
        pattern_path(plain + seq!['/', '*', '*']) == plain,
{
    reveal_strlit("/**");
    assert("/**"@ =~= seq!['/', '*', '*']);
    let end = "/**"@;
    assert forall|c: char| #[trigger] text::is_space(c) implies c != '!' && c != '/' && c != '*' by {
    }
    lemma_kept(plain);
    lemma_kept(seq!['!'] + plain);
    lemma_kept(seq!['/'] + plain);
    lemma_kept(plain + seq!['/']);
    lemma_kept(plain + end);
    assert((seq!['!'] + plain).skip(1) =~= plain);
    assert((seq!['/'] + plain).skip(1) =~= plain);
    assert(text::without_leading(plain, '!') == plain);
    assert(text::without_leading(plain, '/') == plain);
    assert(text::without_leading(seq!['!'] + plain, '!') == plain);
    assert(text::without_leading(seq!['/'] + plain, '!') == seq!['/'] + plain);
    assert(text::without_leading(seq!['/'] + plain, '/') == plain);
    assert(!end.is_suffix_of(plain)) by {
        if end.is_suffix_of(plain) {
            assert(plain.subrange(plain.len() - 3, plain.len() as int)[2] == plain.last());
        }
    }
    assert(text::without_suffixes(plain, end) == plain);
    assert(text::without_trailing(plain, '/') == plain);
    let slash = plain + seq!['/'];
    assert(slash[0] == plain[0]);
    assert(text::without_leading(slash, '!') == slash);
    assert(text::without_leading(slash, '/') == slash);
    assert(!end.is_suffix_of(slash)) by {
        if end.is_suffix_of(slash) {
            assert(slash.subrange(slash.len() - 3, slash.len() as int)[2] == slash.last());
        }
    }
    assert(text::without_suffixes(slash, end) == slash);
    assert(slash.drop_last() =~= plain);
    assert(text::without_trailing(slash, '/') == plain);
    let deep = plain + end;
    assert(deep[0] == plain[0]);
    assert(text::without_leading(deep, '!') == deep);
    assert(text::without_leading(deep, '/') == deep);
    assert(deep.subrange(deep.len() - 3, deep.len() as int) =~= end);
    assert(end.is_suffix_of(deep));
    assert(deep.take(deep.len() - end.len()) =~= plain);
    assert(text::without_suffixes(deep, end) == plain);
}

/// Text with no white space at its ends stays as it is.
proof fn lemma_kept(content: Seq<char>)
    requires
        content.len() > 0,
        !text::is_space(content[0]) && !text::is_space(content.last()),
    ensures
        text::trimmed(content) == content,
{
    assert(text::trimmed_start(content) == content);
}

/// A directory holds what an include pattern names below it.
pub proof fn law_directory_holds_what_is_included_below(
    dir: Seq<char>,
    rest: Seq<char>,
    patterns: Seq<Seq<char>>,
    i: int,
)
    requires
        dir.len() > 0,
        !dir.contains('\\'),
        dir[0] != '/' && dir.last() != '/',
        0 <= i < patterns.len(),
        pattern_path(patterns[i]) == dir + seq!['/'] + rest,
    ensures
        may_hold_included(dir, patterns),
{
    paths::lemma_slashed_keeps(dir);
    assert(text::without_leading(dir, '/') == dir);
    assert(text::without_trailing(dir, '/') == dir);
    let prefix = dir + seq!['/'];
    assert(prefix =~= (prefix + rest).subrange(0, prefix.len() as int));
    assert(prefix.is_prefix_of(pattern_path(patterns[i])));
}

/// A directory holds nothing that is included where no include pattern names anything below
/// it.
pub proof fn law_directory_holds_nothing_else(dir: Seq<char>, patterns: Seq<Seq<char>>)
    requires
        dir.len() > 0,
        !dir.contains('\\'),
        dir[0] != '/' && dir.last() != '/',
        forall|i: int|
            0 <= i < patterns.len() ==> !(dir + seq!['/']).is_prefix_of(
                pattern_path(#[trigger] patterns[i]),
            ),
    ensures
        !may_hold_included(dir, patterns),
{
    paths::lemma_slashed_keeps(dir);
    assert(text::without_leading(dir, '/') == dir);
    assert(text::without_trailing(dir, '/') == dir);
}

/// A filter starts with the patterns of its policy and with the `.gitignore` file of the
/// root, all relative to the root, and tells first of what the policy could not use.
pub proof fn law_filter_starts_with_its_policy(
    root: Seq<char>,
    policy: Policy,
    gitignore: GitignoreSource,
)
    ensures
        ({
            let rules = setup_rules(root, policy, gitignore);
            &&& rules.enabled == policy.enabled
            &&& rules.root == root
            &&& rules.include_patterns == policy.include_patterns
            &&& rules.included == rule_set(root, policy.include_patterns)
            &&& rules.excluded == rule_set(root, policy.exclude_patterns)
            &&& known_rules(rules.gitignores, root) == Some(
                rule_set(root, gitignore_lines(gitignore)),
            )
            &&& forall|dir: Seq<char>|
                dir != root ==> #[trigger] known_rules(rules.gitignores, dir) is None
            &&& policy.warnings.is_prefix_of(rules.warnings)
        }),
{
    let rules = setup_rules(root, policy, gitignore);
    assert(policy.warnings =~= rules.warnings.subrange(0, policy.warnings.len() as int));
    assert(rules.gitignores.skip(1) =~= seq![]);
    assert forall|dir: Seq<char>| dir != root implies #[trigger] known_rules(
        rules.gitignores,
        dir,
    ) is None by {
        assert(known_rules(rules.gitignores.skip(1), dir) is None);
    }
}

/// The rules of a directory are known once they were read, and not before.
pub proof fn law_rules_are_known_once_read(gitignores: Seq<(Seq<char>, RuleSet)>, dir: Seq<char>)
    ensures
        known_rules(gitignores, dir) is None <==> forall|i: int|
            0 <= i < gitignores.len() ==> (#[trigger] gitignores[i]).0 != dir,
    decreases gitignores.len(),
{
    if gitignores.len() > 0 {
        let rest = gitignores.skip(1);
        law_rules_are_known_once_read(rest, dir);
        if forall|i: int| 0 <= i < rest.len() ==> (#[trigger] rest[i]).0 != dir {
            assert forall|i: int| 0 < i < gitignores.len() implies (#[trigger] gitignores[i]).0
                != dir by {
                assert(rest[i - 1] == gitignores[i]);
            }
        } else {
            let i = choose|i: int| 0 <= i < rest.len() && (#[trigger] rest[i]).0 == dir;
            assert(gitignores[i + 1] == rest[i]);
        }
    }
}

} // verus!
