//! Regular expressions and globs.
use crate::text;
use vstd::prelude::*;

verus! {

/// A tool call in the model's text: the tool's name, then its arguments.
pub const TOOL_CALL_PATTERN: &'static str = r"(?s)\[TOOL_CALLS\](\w+)\[ARGS\](\{.+)";

/// The key of a command among the arguments of `restricted_exec`.
pub const COMMAND_KEY_PATTERN: &'static str = "\"(command[1-8])\"\\s*:";

/// A file element of an answer: its path, then its body.
pub const FILE_PATTERN: &'static str = "<file\\s+path=[\"']([^\"']+)[\"']>([\\s\\S]*?)</file>";

/// A range element in the body of a file element: its first and its last line.
pub const RANGE_PATTERN: &'static str = r"<range>(\d+)-(\d+)</range>";

/// Where the groups of one match stand, as byte offsets; the first is the whole match.
pub type Groups = Vec<Option<(usize, usize)>>;

/// Where the groups of the matches stand.
pub open spec fn spans_view(matches: Seq<Groups>) -> Seq<Seq<Option<(int, int)>>> {
    Seq::new(matches.len(), |i: int| groups_view(matches[i]@))
}

/// Where the groups of one match stand.
pub open spec fn groups_view(groups: Seq<Option<(usize, usize)>>) -> Seq<Option<(int, int)>> {
    Seq::new(
        groups.len(),
        |g: int|
            match groups[g] {
                Some((from, to)) => Some((from as int, to as int)),
                None => None,
            },
    )
}

/// Whether `from..to` is a run of whole characters of `data`.
pub open spec fn whole_chars(data: Seq<u8>, from: int, to: int) -> bool {
    &&& 0 <= from <= to <= data.len()
    &&& vstd::utf8::is_char_boundary(data, from)
    &&& vstd::utf8::is_char_boundary(data, to)
}

/// Whether the groups stand on whole characters of `data`, with the whole match first.
pub open spec fn proper_groups(data: Seq<u8>, groups: Seq<Option<(int, int)>>) -> bool {
    &&& groups.len() > 0
    &&& groups[0] is Some
    &&& forall|g: int|
        0 <= g < groups.len() ==> match #[trigger] groups[g] {
            Some((from, to)) => whole_chars(data, from, to),
            None => true,
        }
}

/// Where a match starts.
pub open spec fn match_start(groups: Seq<Option<(int, int)>>) -> int {
    match groups[0] {
        Some((from, _)) => from,
        None => 0,
    }
}

/// Where a match ends.
pub open spec fn match_end(groups: Seq<Option<(int, int)>>) -> int {
    match groups[0] {
        Some((_, to)) => to,
        None => 0,
    }
}

/// Whether the matches stand on whole characters of `data`, one behind the other.
pub open spec fn proper_spans(data: Seq<u8>, spans: Seq<Seq<Option<(int, int)>>>) -> bool {
    &&& forall|i: int| 0 <= i < spans.len() ==> proper_groups(data, #[trigger] spans[i])
    &&& forall|i: int, j: int|
        0 <= i < j < spans.len() ==> match_end(#[trigger] spans[i]) <= match_start(
            #[trigger] spans[j],
        )
}

/// Where the matches of a regular expression stand in a text, where the
/// pattern is one.
pub uninterp spec fn regex_spans(
    pattern: Seq<char>,
    subject: Seq<char>,
) -> Option<Seq<Seq<Option<(int, int)>>>>;

/// `regex::Regex::new` and `Regex::captures_iter`: all matches, leftmost
/// first, none overlapping another, with the byte offsets of their groups,
/// which stand on character boundaries. The outcome depends on the pattern and
/// the text alone. The four patterns of this module are accepted.
#[verifier::external_body]
pub(crate) fn find_matches(pattern: &str, subject: &str) -> (r: Option<Vec<Groups>>)
    ensures
        match r {
            Some(matches) => regex_spans(pattern@, subject@) == Some(spans_view(matches@))
                && proper_spans(vstd::utf8::encode_utf8(subject@), spans_view(matches@)),
            None => regex_spans(pattern@, subject@) is None,
        },
        pattern@ == TOOL_CALL_PATTERN@ || pattern@ == COMMAND_KEY_PATTERN@ || pattern@
            == FILE_PATTERN@ || pattern@ == RANGE_PATTERN@ ==> r is Some,
{
    let spans = |groups: regex::Captures<'_>|
        groups.iter().map(|group| group.map(|m| (m.start(), m.end()))).collect();
    regex::Regex::new(pattern).ok().map(|re| re.captures_iter(subject).map(spans).collect())
}

/// The text in the bytes `from..to` of `subject`.
pub open spec fn byte_slice(subject: Seq<char>, from: int, to: int) -> Seq<char> {
    vstd::utf8::decode_utf8(vstd::utf8::encode_utf8(subject).subrange(from, to))
}

/// A boundary stays one in the part before a later boundary.
proof fn lemma_boundary_in_prefix(data: Seq<u8>, from: int, to: int)
    requires
        vstd::utf8::valid_utf8(data),
        whole_chars(data, from, to),
    ensures
        vstd::utf8::valid_utf8(data.subrange(0, to)),
        vstd::utf8::is_char_boundary(data.subrange(0, to), from),
{
    let front = data.subrange(0, to);
    vstd::utf8::valid_utf8_split(data, to);
    vstd::utf8::is_char_boundary_start_end_of_seq(front);
    if from < to {
        assert(front[from] == data[from]);
        vstd::utf8::is_char_boundary_iff_not_is_continuation_byte(front, from);
        vstd::utf8::is_char_boundary_iff_not_is_continuation_byte(data, from);
    }
}

/// The text in the bytes `from..to` of `subject`.
pub fn slice_bytes(subject: &str, from: usize, to: usize) -> (r: String)
    requires
        whole_chars(vstd::utf8::encode_utf8(subject@), from as int, to as int),
    ensures
        r@ == byte_slice(subject@, from as int, to as int),
{
    let ghost data = vstd::utf8::encode_utf8(subject@);
    proof {
        vstd::utf8::encode_utf8_valid_utf8(subject@);
        lemma_boundary_in_prefix(data, from as int, to as int);
    }
    let (front, _rest) = subject.split_at(to);
    let (_before, part) = front.split_at(from);
    proof {
        assert(vstd::utf8::encode_utf8(part@) =~= data.subrange(from as int, to as int));
        vstd::utf8::encode_utf8_decode_utf8(part@);
    }
    part.to_owned()
}

/// Whether a glob matches a path, where the pattern is a glob, on systems whose path
/// separator is `/`. On others the same glob can match other paths, and nothing is
/// claimed.
pub uninterp spec fn glob_matches(pattern: Seq<char>, path: Seq<char>) -> Option<bool>;

/// `globset::Glob::new`, `Glob::compile_matcher` and `GlobMatcher::is_match`.
/// Compiling panics where the expression of the glob is too large, so the same
/// expression goes to `regex::bytes::RegexBuilder` before, which has the same limit
/// and says so. On systems whose path separator is `/` the outcome depends on the
/// pattern and the path alone; of others nothing is claimed.
#[verifier::external_body]
fn match_glob(pattern: &str, path: &str) -> (r: Option<bool>)
    ensures
        r == glob_matches(pattern@, path@),
{
    let glob = globset::Glob::new(pattern).ok()?;
    let mut expression = regex::bytes::RegexBuilder::new(glob.regex());
    expression.dot_matches_new_line(true).build().ok()?;
    Some(glob.compile_matcher().is_match(path))
}

/// Whether `pattern` is a glob that matches `path`.
pub open spec fn glob_match(pattern: Seq<char>, path: Seq<char>) -> bool {
    glob_matches(pattern, path) == Some(true)
}

/// Whether `pattern` is a glob that matches `path`.
pub fn pattern_matches(pattern: &str, path: &str) -> (r: bool)
    ensures
        r == glob_match(pattern@, path@),
{
    match match_glob(pattern, path) {
        Some(matched) => matched,
        None => false,
    }
}

/// Whether one of the patterns matches the name or the relative path of a file.
pub open spec fn any_pattern_matches(
    patterns: Seq<Seq<char>>,
    name: Seq<char>,
    rel: Seq<char>,
) -> bool {
    exists|i: int|
        0 <= i < patterns.len() && (glob_match(
            text::replaced(#[trigger] patterns[i], seq!['\\'], seq!['/']),
            name,
        ) || glob_match(patterns[i], rel))
}

/// Whether one of the patterns matches the name or the relative path of a file.
pub fn matches_any_pattern(patterns: &[String], name: &str, rel: &str) -> (r: bool)
    ensures
        r == any_pattern_matches(text::views(patterns@), name@, rel@),
{
    let mut i: usize = 0;
    proof {
        reveal_strlit("\\");
        reveal_strlit("/");
        assert("\\"@ =~= seq!['\\']);
        assert("/"@ =~= seq!['/']);
    }
    while i < patterns.len()
        invariant
            "\\"@ == seq!['\\'],
            "/"@ == seq!['/'],
            i <= patterns@.len(),
            forall|k: int|
                0 <= k < i ==> !(glob_match(
                    text::replaced(#[trigger] text::views(patterns@)[k], seq!['\\'], seq!['/']),
                    name@,
                ) || glob_match(text::views(patterns@)[k], rel@)),
        decreases patterns@.len() - i,
    {
        let forward = text::replace(&patterns[i], "\\", "/");
        assert(text::views(patterns@)[i as int] == patterns@[i as int]@);
        if pattern_matches(&forward, name) || pattern_matches(&patterns[i], rel) {
            return true;
        }
        i += 1;
    }
    false
}

/// A list of patterns matches where one of them does: the name, with backslashes as slashes, or
/// the path. A list that is longer matches no less.
pub proof fn law_one_pattern_is_enough(
    before: Seq<Seq<char>>,
    behind: Seq<Seq<char>>,
    pattern: Seq<char>,
    name: Seq<char>,
    rel: Seq<char>,
)
    ensures
        any_pattern_matches(seq![pattern], name, rel) <==> glob_match(
            text::replaced(pattern, seq!['\\'], seq!['/']),
            name,
        ) || glob_match(pattern, rel),
        any_pattern_matches(before + behind, name, rel) <==> any_pattern_matches(before, name, rel)
            || any_pattern_matches(behind, name, rel),
        !any_pattern_matches(seq![], name, rel),
{
    let one = seq![pattern];
    assert(one[0] == pattern);
    let all = before + behind;
    assert forall|i: int| 0 <= i < before.len() implies #[trigger] before[i] == all[i] by {}
    assert forall|i: int| 0 <= i < behind.len() implies #[trigger] behind[i] == all[before.len()
        + i] by {}
    if any_pattern_matches(all, name, rel) {
        let i = choose|i: int|
            0 <= i < all.len() && (glob_match(
                text::replaced(#[trigger] all[i], seq!['\\'], seq!['/']),
                name,
            ) || glob_match(all[i], rel));
        if i < before.len() {
            assert(before[i] == all[i]);
        } else {
            assert(behind[i - before.len()] == all[i]);
        }
    }
}

} // verus!
