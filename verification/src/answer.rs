//! What an answer of the model says of the project's files.
use crate::paths::{self, PathPart};
use crate::patterns::{self, Groups};
use crate::text;
use crate::types::{self, FileEntry, Found, Outcome, SearchResult};
use vstd::prelude::*;
use vstd::utf8::encode_utf8;

verus! {

/// `path` without the slashes of either kind at its start.
pub open spec fn without_leading_slashes(path: Seq<char>) -> Seq<char>
    decreases path.len(),
{
    if path.len() > 0 && (path[0] == '/' || path[0] == '\\') {
        without_leading_slashes(path.skip(1))
    } else {
        path
    }
}

/// `path` without the slashes of either kind at its start.
fn trim_slashes(path: &str) -> (r: String)
    ensures
        r@ == without_leading_slashes(path@),
{
    let chars = text::chars_of(path);
    let mut from: usize = 0;
    assert(path@.skip(0) =~= path@);
    while from < chars.len() && (chars[from] == '/' || chars[from] == '\\')
        invariant
            chars@ == path@,
            from <= chars@.len(),
            without_leading_slashes(path@.skip(from as int)) == without_leading_slashes(path@),
        decreases chars@.len() - from,
    {
        assert(path@.skip(from as int)[0] == chars@[from as int]);
        assert(path@.skip(from as int).skip(1) =~= path@.skip(from + 1));
        from += 1;
    }
    proof {
        if from < chars@.len() {
            assert(path@.skip(from as int)[0] == chars@[from as int]);
        }
        assert(path@.subrange(from as int, path@.len() as int) =~= path@.skip(from as int));
    }
    text::from_range(&chars, from, chars.len())
}

/// Whether a path climbs: by a step to a parent, or to the root.
pub open spec fn climbs(path: Seq<char>) -> bool {
    exists|i: int| 0 <= i < paths::parts(path).len() && {
        ||| #[trigger] paths::parts(path)[i] is Parent
        ||| paths::parts(path)[i] is Root
    }
}

/// The path within the project that a path of the answer names, where it
/// names one that stays in it. On Windows one with a drive does not.
pub open spec fn project_rel(windows: bool, path: Seq<char>) -> Option<Seq<char>> {
    let inner = if "/codebase"@.is_prefix_of(path) {
        path.skip("/codebase"@.len() as int)
    } else {
        path
    };
    let rel = paths::slashed(without_leading_slashes(inner));
    if rel.len() == 0 || climbs(rel) || windows && paths::has_drive(rel) {
        None
    } else {
        Some(rel)
    }
}

/// The path within the project that a path of the answer names, where it
/// names one that stays in it.
pub fn safe_codebase_rel(windows: bool, path: &str) -> (r: Option<String>)
    ensures
        text::opt_view(r) == project_rel(windows, path@),
{
    let inner = match text::strip_prefix(path, "/codebase") {
        Some(rest) => rest,
        None => text::copied(path),
    };
    let trimmed = trim_slashes(&inner);
    let rel = paths::with_slashes(&trimmed);
    if rel.as_str().is_empty() || windows && paths::starts_with_drive(&rel) {
        return None;
    }
    let list = paths::split_path(&rel);
    let ghost parts = paths::parts(rel@);
    let mut i: usize = 0;
    while i < list.len()
        invariant
            i <= list@.len(),
            parts == paths::parts(rel@),
            parts == paths::parts_view(list@),
            project_rel(windows, path@) == (if climbs(rel@) {
                None
            } else {
                Some(rel@)
            }),
            forall|k: int| 0 <= k < i ==> !(#[trigger] parts[k] is Parent || parts[k] is Root),
        decreases list@.len() - i,
    {
        assert(parts[i as int] == list@[i as int]@);
        match &list[i] {
            PathPart::Parent => {
                assert(parts[i as int] is Parent);
                return None;
            },
            PathPart::Root => {
                assert(parts[i as int] is Root);
                return None;
            },
            _ => {},
        }
        i += 1;
    }
    Some(rel)
}

/// A path that the answer names within the project takes no step up.
pub proof fn law_project_paths_do_not_climb(windows: bool, path: Seq<char>)
    ensures
        project_rel(windows, path) matches Some(rel) ==> rel.len() > 0 && forall|i: int|
            0 <= i < paths::parts(rel).len() ==> !(#[trigger] paths::parts(rel)[i] is Parent)
                && !(paths::parts(rel)[i] is Root),
{
}

/// A line range within a file of `line_count` lines, put in order and cut off
/// at the end of the file, where any of it is there.
pub open spec fn valid_range(start: usize, end: usize, line_count: usize) -> Option<(usize, usize)> {
    let low = if start <= end {
        start
    } else {
        end
    };
    let high = if start <= end {
        end
    } else {
        start
    };
    if start == 0 || end == 0 || low > line_count {
        None
    } else {
        Some(
            (
                low,
                if high <= line_count {
                    high
                } else {
                    line_count
                },
            ),
        )
    }
}

/// A line range within a file of `line_count` lines, put in order and cut off
/// at the end of the file, where any of it is there.
pub fn normalize_answer_range(start: usize, end: usize, line_count: usize) -> (r: Option<
    (usize, usize),
>)
    ensures
        r == valid_range(start, end, line_count),
{
    if start == 0 || end == 0 {
        return None;
    }
    let (low, high) = if start <= end {
        (start, end)
    } else {
        (end, start)
    };
    if low > line_count {
        return None;
    }
    Some(
        (
            low,
            if high <= line_count {
                high
            } else {
                line_count
            },
        ),
    )
}

/// The number of line ends in a file.
pub open spec fn line_ends(content: Seq<u8>) -> nat
    decreases content.len(),
{
    if content.len() == 0 {
        0
    } else {
        line_ends(content.drop_last()) + (if content.last() == 10 {
            1nat
        } else {
            0
        })
    }
}

/// The number of lines of a file. The last may lack its line end.
pub open spec fn line_count(content: Seq<u8>) -> nat {
    if content.len() == 0 {
        0
    } else if content.last() == 10 {
        line_ends(content)
    } else {
        line_ends(content) + 1
    }
}

/// A file has no more line ends than bytes.
proof fn lemma_line_ends(content: Seq<u8>)
    ensures
        line_ends(content) <= content.len(),
        content.len() > 0 && content.last() != 10 ==> line_ends(content) < content.len(),
    decreases content.len(),
{
    if content.len() > 0 {
        lemma_line_ends(content.drop_last());
    }
}

/// The number of lines of a file. The last may lack its line end.
pub fn file_line_count(content: &[u8]) -> (r: usize)
    ensures
        r == line_count(content@),
{
    if content.len() == 0 {
        return 0;
    }
    let mut ends: usize = 0;
    let mut i: usize = 0;
    assert(content@.take(0) =~= seq![]);
    while i < content.len()
        invariant
            i <= content@.len(),
            ends <= i,
            ends == line_ends(content@.take(i as int)),
        decreases content@.len() - i,
    {
        assert(content@.take(i + 1).drop_last() =~= content@.take(i as int));
        if content[i] == 10 {
            ends += 1;
        }
        i += 1;
    }
    proof {
        assert(content@.take(i as int) =~= content@);
        lemma_line_ends(content@);
    }
    if content[content.len() - 1] == 10 {
        ends
    } else {
        ends + 1
    }
}

/// The text of a group of a match, where it took part.
pub open spec fn group_text(
    subject: Seq<char>,
    groups: Seq<Option<(int, int)>>,
    g: int,
) -> Option<Seq<char>> {
    if g < groups.len() {
        match groups[g] {
            Some((from, to)) => Some(patterns::byte_slice(subject, from, to)),
            None => None,
        }
    } else {
        None
    }
}

/// The text of a group of a match, where it took part.
fn text_of_group(subject: &str, groups: &Groups, g: usize) -> (r: Option<String>)
    requires
        patterns::proper_groups(encode_utf8(subject@), patterns::groups_view(groups@)),
    ensures
        text::opt_view(r) == group_text(subject@, patterns::groups_view(groups@), g as int),
{
    let ghost shown = patterns::groups_view(groups@);
    if g >= groups.len() {
        return None;
    }
    match groups[g] {
        Some((from, to)) => {
            assert(shown[g as int] == Some((from as int, to as int)));
            Some(patterns::slice_bytes(subject, from, to))
        },
        None => {
            assert(shown[g as int] is None);
            None
        },
    }
}

/// The number that an optional text spells, where `usize` can hold it.
pub open spec fn line_number(content: Option<Seq<char>>) -> Option<usize> {
    match content {
        Some(content) => match text::number(content) {
            Some(n) if n <= usize::MAX => Some(n as usize),
            _ => None,
        },
        None => None,
    }
}

/// The range that a match gives.
pub open spec fn matched_range(
    body: Seq<char>,
    groups: Seq<Option<(int, int)>>,
    lines: usize,
) -> Option<(usize, usize)> {
    match (line_number(group_text(body, groups, 1)), line_number(group_text(body, groups, 2))) {
        (Some(start), Some(end)) => valid_range(start, end, lines),
        _ => None,
    }
}

/// The ranges that matches give.
pub open spec fn matched_ranges(
    body: Seq<char>,
    spans: Seq<Seq<Option<(int, int)>>>,
    lines: usize,
) -> Seq<(usize, usize)>
    decreases spans.len(),
{
    if spans.len() == 0 {
        seq![]
    } else {
        let before = matched_ranges(body, spans.drop_last(), lines);
        match matched_range(body, spans.last(), lines) {
            Some(range) => before.push(range),
            None => before,
        }
    }
}

/// The range that a match gives.
fn range_of_match(body: &str, groups: &Groups, lines: usize) -> (r: Option<(usize, usize)>)
    requires
        patterns::proper_groups(encode_utf8(body@), patterns::groups_view(groups@)),
    ensures
        r == matched_range(body@, patterns::groups_view(groups@), lines),
{
    let start = match text_of_group(body, groups, 1) {
        Some(content) => text::parse_usize(&content),
        None => None,
    };
    let end = match text_of_group(body, groups, 2) {
        Some(content) => text::parse_usize(&content),
        None => None,
    };
    match (start, end) {
        (Some(start), Some(end)) => normalize_answer_range(start, end, lines),
        _ => None,
    }
}

/// The ranges that the given matches name in a file of `lines` lines.
pub fn ranges_of_matches(body: &str, matches: &Vec<Groups>, lines: usize) -> (r: Vec<
    (usize, usize),
>)
    requires
        patterns::proper_spans(encode_utf8(body@), patterns::spans_view(matches@)),
    ensures
        r@ == matched_ranges(body@, patterns::spans_view(matches@), lines),
{
    let ghost spans = patterns::spans_view(matches@);
    let mut out: Vec<(usize, usize)> = Vec::new();
    let mut i: usize = 0;
    assert(spans.take(0) =~= seq![]);
    assert(out@ =~= seq![]);
    while i < matches.len()
        invariant
            i <= matches@.len(),
            spans == patterns::spans_view(matches@),
            patterns::proper_spans(encode_utf8(body@), spans),
            out@ == matched_ranges(body@, spans.take(i as int), lines),
        decreases matches@.len() - i,
    {
        proof {
            assert(spans[i as int] == patterns::groups_view(matches@[i as int]@));
            assert(patterns::proper_groups(encode_utf8(body@), spans[i as int]));
            assert(spans.take(i + 1).drop_last() =~= spans.take(i as int));
            assert(spans.take(i + 1).last() == spans[i as int]);
        }
        if let Some(range) = range_of_match(body, &matches[i], lines) {
            out.push(range);
        }
        i += 1;
    }
    assert(spans.take(i as int) =~= spans);
    out
}

/// The ranges that the body of a file element names in a file of `lines` lines.
pub open spec fn ranges_in(body: Seq<char>, lines: usize) -> Seq<(usize, usize)> {
    match patterns::regex_spans(patterns::RANGE_PATTERN@, body) {
        Some(spans) => matched_ranges(body, spans, lines),
        None => seq![],
    }
}

/// The ranges that the body of a file element names in a file of `lines` lines.
pub fn parse_ranges(body: &str, lines: usize) -> (r: Vec<(usize, usize)>)
    ensures
        r@ == ranges_in(body@, lines),
{
    match patterns::find_matches(patterns::RANGE_PATTERN, body) {
        Some(matches) => ranges_of_matches(body, &matches, lines),
        None => Vec::new(),
    }
}

/// A file element of an answer: its path within the project and its body.
#[derive(Debug, Clone, PartialEq, Eq)]
pub struct AnswerFile {
    pub path: String,
    pub body: String,
}

/// What a file element says.
#[verifier::ext_equal]
pub struct Mention {
    pub path: Seq<char>,
    pub body: Seq<char>,
}

impl View for AnswerFile {
    type V = Mention;

    open spec fn view(&self) -> Mention {
        Mention { path: self.path@, body: self.body@ }
    }
}

/// What file elements say.
pub open spec fn mentions_view(files: Seq<AnswerFile>) -> Seq<Mention> {
    Seq::new(files.len(), |i: int| files[i]@)
}

/// What a match says of a file of the project.
pub open spec fn mention_at(
    windows: bool,
    xml: Seq<char>,
    groups: Seq<Option<(int, int)>>,
) -> Option<Mention> {
    match group_text(xml, groups, 1) {
        Some(path) => match project_rel(windows, path) {
            Some(rel) => Some(
                Mention {
                    path: rel,
                    body: match group_text(xml, groups, 2) {
                        Some(body) => body,
                        None => seq![],
                    },
                },
            ),
            None => None,
        },
        None => None,
    }
}

/// What matches say of the files of the project.
pub open spec fn mentions_at(
    windows: bool,
    xml: Seq<char>,
    spans: Seq<Seq<Option<(int, int)>>>,
) -> Seq<Mention>
    decreases spans.len(),
{
    if spans.len() == 0 {
        seq![]
    } else {
        let before = mentions_at(windows, xml, spans.drop_last());
        match mention_at(windows, xml, spans.last()) {
            Some(mention) => before.push(mention),
            None => before,
        }
    }
}

/// What an answer says of the files of the project.
pub open spec fn mentions(windows: bool, xml: Seq<char>) -> Seq<Mention> {
    match patterns::regex_spans(patterns::FILE_PATTERN@, xml) {
        Some(spans) => mentions_at(windows, xml, spans),
        None => seq![],
    }
}

/// The file elements at the given matches that name a path within the project.
pub fn files_of_matches(windows: bool, xml: &str, matches: &Vec<Groups>) -> (r: Vec<AnswerFile>)
    requires
        patterns::proper_spans(encode_utf8(xml@), patterns::spans_view(matches@)),
    ensures
        mentions_view(r@) == mentions_at(windows, xml@, patterns::spans_view(matches@)),
{
    let ghost spans = patterns::spans_view(matches@);
    let mut out: Vec<AnswerFile> = Vec::new();
    let mut i: usize = 0;
    assert(spans.take(0) =~= seq![]);
    assert(mentions_view(out@) =~= seq![]);
    while i < matches.len()
        invariant
            i <= matches@.len(),
            spans == patterns::spans_view(matches@),
            patterns::proper_spans(encode_utf8(xml@), spans),
            mentions_view(out@) == mentions_at(windows, xml@, spans.take(i as int)),
        decreases matches@.len() - i,
    {
        let ghost before = mentions_view(out@);
        proof {
            assert(spans[i as int] == patterns::groups_view(matches@[i as int]@));
            assert(patterns::proper_groups(encode_utf8(xml@), spans[i as int]));
            assert(spans.take(i + 1).drop_last() =~= spans.take(i as int));
            assert(spans.take(i + 1).last() == spans[i as int]);
        }
        if let Some(named) = text_of_group(xml, &matches[i], 1) {
            if let Some(path) = safe_codebase_rel(windows, &named) {
                let body = match text_of_group(xml, &matches[i], 2) {
                    Some(body) => body,
                    None => {
                        let empty = String::new();
                        assert(empty@ =~= seq![]);
                        empty
                    },
                };
                let file = AnswerFile { path, body };
                assert(mention_at(windows, xml@, spans[i as int]) == Some(file@));
                out.push(file);
                assert(mentions_view(out@) =~= before.push(file@));
            }
        }
        i += 1;
    }
    assert(spans.take(i as int) =~= spans);
    out
}

/// The file elements of an answer that name a path within the project.
pub fn answer_files(windows: bool, xml_text: &str) -> (r: Vec<AnswerFile>)
    ensures
        mentions_view(r@) == mentions(windows, xml_text@),
{
    match patterns::find_matches(patterns::FILE_PATTERN, xml_text) {
        Some(matches) => files_of_matches(windows, xml_text, &matches),
        None => {
            let none: Vec<AnswerFile> = Vec::new();
            assert(mentions_view(none@) =~= seq![]);
            none
        },
    }
}

/// What is there of a path within the project: where it leads, with `/` between the
/// parts, whether to a file, and how many lines that has where it can be read.
#[derive(Debug, Clone, PartialEq, Eq)]
pub struct FileProbe {
    pub path: String,
    pub full_path: String,
    pub is_file: bool,
    pub line_count: Option<usize>,
}

/// What is known of a path within the project.
#[verifier::ext_equal]
pub struct Probe {
    pub path: Seq<char>,
    pub full_path: Seq<char>,
    pub is_file: bool,
    pub line_count: Option<usize>,
}

impl View for FileProbe {
    type V = Probe;

    open spec fn view(&self) -> Probe {
        Probe {
            path: self.path@,
            full_path: self.full_path@,
            is_file: self.is_file,
            line_count: self.line_count,
        }
    }
}

/// What is known of paths within the project.
pub open spec fn probes_view(probes: Seq<FileProbe>) -> Seq<Probe> {
    Seq::new(probes.len(), |i: int| probes[i]@)
}

/// What is known of a path within the project, where anything is.
pub open spec fn probe_of(probes: Seq<Probe>, path: Seq<char>) -> Option<Probe>
    decreases probes.len(),
{
    if probes.len() == 0 {
        None
    } else if probes[0].path == path {
        Some(probes[0])
    } else {
        probe_of(probes.skip(1), path)
    }
}

/// What is known of a path within the project, where anything is.
pub fn find_probe<'a>(probes: &'a Vec<FileProbe>, path: &str) -> (r: Option<&'a FileProbe>)
    ensures
        match r {
            Some(probe) => probe_of(probes_view(probes@), path@) == Some(probe@),
            None => probe_of(probes_view(probes@), path@) is None,
        },
{
    let ghost all = probes_view(probes@);
    let mut i: usize = 0;
    assert(all.skip(0) =~= all);
    while i < probes.len()
        invariant
            i <= probes@.len(),
            all == probes_view(probes@),
            probe_of(all.skip(i as int), path@) == probe_of(all, path@),
        decreases probes@.len() - i,
    {
        assert(all.skip(i as int)[0] == probes@[i as int]@);
        if text::same(&probes[i].path, path) {
            return Some(&probes[i]);
        }
        assert(all.skip(i as int).skip(1) =~= all.skip(i + 1));
        i += 1;
    }
    None
}

/// What is found at a path of the answer: nothing where the path leads to no
/// file, out of the project, to an empty or unreadable file, or where none of
/// the ranges lies in the file.
pub open spec fn found_at(root: Seq<char>, mention: Mention, probe: Option<Probe>) -> Option<
    Found,
> {
    match probe {
        Some(probe) => if !probe.is_file || !paths::is_inside(root, probe.full_path) {
            None
        } else {
            match probe.line_count {
                Some(lines) => {
                    let ranges = ranges_in(mention.body, lines);
                    if lines == 0 || ranges.len() == 0 {
                        None
                    } else {
                        Some(Found { path: mention.path, full_path: probe.full_path, ranges })
                    }
                },
                None => None,
            }
        },
        None => None,
    }
}

/// What an optional entry says.
pub open spec fn opt_found(entry: Option<FileEntry>) -> Option<Found> {
    match entry {
        Some(entry) => Some(entry@),
        None => None,
    }
}

/// What is found at a path of the answer.
pub fn parse_answer_file(root: &str, file: &AnswerFile, probe: Option<&FileProbe>) -> (r: Option<
    FileEntry,
>)
    ensures
        opt_found(r) == found_at(
            root@,
            file@,
            match probe {
                Some(probe) => Some(probe@),
                None => None,
            },
        ),
{
    let probe = match probe {
        Some(probe) => probe,
        None => return None,
    };
    if !probe.is_file || !paths::starts_with_path(&probe.full_path, root) {
        return None;
    }
    match probe.line_count {
        Some(lines) => {
            let ranges = parse_ranges(&file.body, lines);
            if lines == 0 || ranges.len() == 0 {
                return None;
            }
            Some(
                FileEntry {
                    path: file.path.clone(),
                    full_path: probe.full_path.clone(),
                    ranges,
                },
            )
        },
        None => None,
    }
}

/// The files that an answer names, in the order in which it names them.
pub open spec fn found_files(root: Seq<char>, named: Seq<Mention>, probes: Seq<Probe>) -> Seq<Found>
    decreases named.len(),
{
    if named.len() == 0 {
        seq![]
    } else {
        let before = found_files(root, named.drop_last(), probes);
        match found_at(root, named.last(), probe_of(probes, named.last().path)) {
            Some(found) => before.push(found),
            None => before,
        }
    }
}

/// The files that an answer names, given what is there of their paths below
/// `resolved_root`, which has `/` between its parts. The result says nothing else.
pub fn parse_answer(
    windows: bool,
    xml_text: &str,
    resolved_root: &str,
    probes: &Vec<FileProbe>,
) -> (r: SearchResult)
    ensures
        r@ == (Outcome {
            files: found_files(resolved_root@, mentions(windows, xml_text@), probes_view(probes@)),
            ..types::no_outcome()
        }),
{
    let named = answer_files(windows, xml_text);
    let ghost all = mentions_view(named@);
    let ghost known = probes_view(probes@);
    let mut files: Vec<FileEntry> = Vec::new();
    let mut i: usize = 0;
    assert(all.take(0) =~= seq![]);
    assert(types::files_view(files@) =~= seq![]);
    while i < named.len()
        invariant
            i <= named@.len(),
            all == mentions_view(named@),
            known == probes_view(probes@),
            types::files_view(files@) == found_files(resolved_root@, all.take(i as int), known),
        decreases named@.len() - i,
    {
        let ghost before = types::files_view(files@);
        proof {
            assert(all.take(i + 1).drop_last() =~= all.take(i as int));
            assert(all.take(i + 1).last() == named@[i as int]@);
        }
        let probe = find_probe(probes, &named[i].path);
        if let Some(file) = parse_answer_file(resolved_root, &named[i], probe) {
            let ghost found = file@;
            files.push(file);
            assert(types::files_view(files@) =~= before.push(found));
        }
        i += 1;
    }
    assert(all.take(i as int) =~= all);
    let mut result = SearchResult::default();
    result.files = files;
    result
}

/// The ranges that matches give lie in the file, in order.
proof fn lemma_ranges_in_file(
    body: Seq<char>,
    spans: Seq<Seq<Option<(int, int)>>>,
    lines: usize,
)
    ensures
        forall|k: int|
            0 <= k < matched_ranges(body, spans, lines).len() ==> {
                let range = #[trigger] matched_ranges(body, spans, lines)[k];
                1 <= range.0 <= range.1 <= lines
            },
    decreases spans.len(),
{
    if spans.len() > 0 {
        lemma_ranges_in_file(body, spans.drop_last(), lines);
        let before = matched_ranges(body, spans.drop_last(), lines);
        let all = matched_ranges(body, spans, lines);
        assert forall|k: int| 0 <= k < all.len() implies {
            let range = #[trigger] all[k];
            1 <= range.0 <= range.1 <= lines
        } by {
            if k < before.len() {
                assert(all[k] == before[k]);
            }
        }
    }
}

/// What a found file promises: that it is one of the files that were looked at,
/// lies in the project, and has all its ranges within its lines.
pub open spec fn is_sound(
    root: Seq<char>,
    probes: Seq<Probe>,
    found: Found,
) -> bool {
    match probe_of(probes, found.path) {
        Some(probe) => {
            &&& probe.is_file
            &&& found.full_path == probe.full_path
            &&& paths::is_inside(root, found.full_path)
            &&& found.ranges.len() > 0
            &&& probe.line_count is Some
            &&& forall|k: int|
                0 <= k < found.ranges.len() ==> {
                    let range = #[trigger] found.ranges[k];
                    1 <= range.0 <= range.1 <= probe.line_count.unwrap()
                }
        },
        None => false,
    }
}

/// Every file of an answer is a file of the project, with ranges that lie in it.
pub proof fn law_answer_stays_in_project(
    root: Seq<char>,
    named: Seq<Mention>,
    probes: Seq<Probe>,
)
    ensures
        forall|i: int|
            0 <= i < found_files(root, named, probes).len() ==> is_sound(
                root,
                probes,
                #[trigger] found_files(root, named, probes)[i],
            ),
    decreases named.len(),
{
    if named.len() > 0 {
        law_answer_stays_in_project(root, named.drop_last(), probes);
        let mention = named.last();
        let probe = probe_of(probes, mention.path);
        let before = found_files(root, named.drop_last(), probes);
        let all = found_files(root, named, probes);
        if let Some(found) = found_at(root, mention, probe) {
            if let Some(spans) = patterns::regex_spans(patterns::RANGE_PATTERN@, mention.body) {
                lemma_ranges_in_file(
                    mention.body,
                    spans,
                    probe.unwrap().line_count.unwrap(),
                );
            }
            assert(is_sound(root, probes, found));
        }
        assert forall|i: int| 0 <= i < all.len() implies is_sound(root, probes, #[trigger] all[i]) by {
            if i < before.len() {
                assert(all[i] == before[i]);
            }
        }
    }
}

/// The files that are found for an answer are those found for its first mentions, followed
/// by those found for the others: no mention changes what is found for another.
pub proof fn law_mentions_are_looked_up_one_by_one(
    root: Seq<char>,
    a: Seq<Mention>,
    b: Seq<Mention>,
    probes: Seq<Probe>,
)
    ensures
        found_files(root, a + b, probes) == found_files(root, a, probes) + found_files(
            root,
            b,
            probes,
        ),
    decreases b.len(),
{
    if b.len() == 0 {
        assert(a + b =~= a);
    } else {
        law_mentions_are_looked_up_one_by_one(root, a, b.drop_last(), probes);
        assert((a + b).drop_last() =~= a + b.drop_last());
        assert(found_files(root, a + b, probes) =~= found_files(root, a, probes) + found_files(
            root,
            b,
            probes,
        ));
    }
}

/// A mention of a file of the project that has lines is found, with the path that the
/// mention gives, the place that the file has, and all ranges that lie in the file. A
/// mention of anything else is not.
pub proof fn law_mentioned_file_is_found(
    root: Seq<char>,
    mention: Mention,
    probes: Seq<Probe>,
    i: int,
)
    requires
        0 <= i < probes.len(),
        probes[i].path == mention.path,
        forall|j: int| 0 <= j < i ==> (#[trigger] probes[j]).path != mention.path,
    ensures
        ({
            let found = found_files(root, seq![mention], probes);
            let probe = probes[i];
            let lines = match probe.line_count {
                Some(lines) => lines,
                None => 0,
            };
            let ranges = ranges_in(mention.body, lines);
            if probe.is_file && lines > 0 && ranges.len() > 0 && paths::parts(root).is_prefix_of(
                paths::parts(probe.full_path),
            ) {
                found == seq![Found { path: mention.path, full_path: probe.full_path, ranges }]
            } else {
                found.len() == 0
            }
        }),
{
    lemma_probe_of(probes, mention.path, i);
    assert(seq![mention].drop_last() =~= seq![]);
    assert(found_files(root, seq![mention].drop_last(), probes) =~= seq![]);
    assert(seq![mention].last() == mention);
    if let Some(found) = found_at(root, mention, Some(probes[i])) {
        assert(found_files(root, seq![mention], probes) =~= seq![found]);
    }
}

/// The first probe of a path is the one that counts.
proof fn lemma_probe_of(probes: Seq<Probe>, path: Seq<char>, i: int)
    requires
        0 <= i < probes.len(),
        probes[i].path == path,
        forall|j: int| 0 <= j < i ==> (#[trigger] probes[j]).path != path,
    ensures
        probe_of(probes, path) == Some(probes[i]),
    decreases i,
{
    if i > 0 {
        assert(probes[0].path != path);
        let rest = probes.skip(1);
        assert forall|j: int| 0 <= j < i - 1 implies (#[trigger] rest[j]).path != path by {
            assert(rest[j] == probes[j + 1]);
        }
        lemma_probe_of(rest, path, i - 1);
    }
}

/// A range of an answer is turned round where it runs backwards, and cut at the last line
/// of the file. There is none where it starts behind the file or names line zero.
pub proof fn law_ranges_are_put_right(start: usize, end: usize, lines: usize)
    ensures
        ({
            let low = vstd::math::min(start as int, end as int);
            let high = vstd::math::max(start as int, end as int);
            match valid_range(start, end, lines) {
                Some(range) => 1 <= low <= lines && range.0 == low && range.1 == vstd::math::min(
                    high,
                    lines as int,
                ),
                None => low == 0 || low > lines,
            }
        }),
        valid_range(start, end, lines) == valid_range(end, start, lines),
{
}

/// The ranges of a file element are those of its first matches, followed by those of the
/// others.
pub proof fn law_ranges_are_read_one_by_one(
    body: Seq<char>,
    a: Seq<Seq<Option<(int, int)>>>,
    b: Seq<Seq<Option<(int, int)>>>,
    lines: usize,
)
    ensures
        matched_ranges(body, a + b, lines) == matched_ranges(body, a, lines) + matched_ranges(
            body,
            b,
            lines,
        ),
    decreases b.len(),
{
    if b.len() == 0 {
        assert(a + b =~= a);
    } else {
        law_ranges_are_read_one_by_one(body, a, b.drop_last(), lines);
        assert((a + b).drop_last() =~= a + b.drop_last());
        assert(matched_ranges(body, a + b, lines) =~= matched_ranges(body, a, lines)
            + matched_ranges(body, b, lines));
    }
}

/// A match of two numbers gives the range between them, put right for the file, and one
/// whose groups are no numbers gives none.
pub proof fn law_matched_numbers_are_the_range(
    body: Seq<char>,
    groups: Seq<Option<(int, int)>>,
    first: (int, int),
    second: (int, int),
    lines: usize,
)
    requires
        groups.len() == 3,
        groups[1] == Some(first),
        groups[2] == Some(second),
    ensures
        ({
            let start = text::number(
                vstd::utf8::decode_utf8(encode_utf8(body).subrange(first.0, first.1)),
            );
            let end = text::number(
                vstd::utf8::decode_utf8(encode_utf8(body).subrange(second.0, second.1)),
            );
            let found = matched_ranges(body, seq![groups], lines);
            match (start, end) {
                (Some(start), Some(end)) => if start <= usize::MAX && end <= usize::MAX {
                    match valid_range(start as usize, end as usize, lines) {
                        Some(range) => found == seq![range],
                        None => found.len() == 0,
                    }
                } else {
                    found.len() == 0
                },
                _ => found.len() == 0,
            }
        }),
{
    assert(seq![groups].drop_last() =~= seq![]);
    assert(matched_ranges(body, seq![groups].drop_last(), lines) =~= seq![]);
    assert(seq![groups].last() == groups);
    if let Some(range) = matched_range(body, groups, lines) {
        assert(matched_ranges(body, seq![groups], lines) =~= seq![range]);
    }
}

/// The ranges of a file element are read from all matches of the range expression.
pub proof fn law_all_ranges_are_read(
    body: Seq<char>,
    spans: Seq<Seq<Option<(int, int)>>>,
    lines: usize,
)
    requires
        patterns::regex_spans("<range>(\\d+)-(\\d+)</range>"@, body) == Some(spans),
    ensures
        ranges_in(body, lines) == matched_ranges(body, spans, lines),
{
}

/// The mentions of an answer are read from all matches of the file expression.
pub proof fn law_all_mentions_are_read(
    windows: bool,
    xml: Seq<char>,
    spans: Seq<Seq<Option<(int, int)>>>,
)
    requires
        patterns::regex_spans(
            "<file\\s+path=[\"']([^\"']+)[\"']>([\\s\\S]*?)</file>"@,
            xml,
        ) == Some(spans),
    ensures
        mentions(windows, xml) == mentions_at(windows, xml, spans),
{
}

/// The mentions of an answer are those of its first matches, followed by those of the
/// others.
pub proof fn law_mentions_are_read_one_by_one(
    windows: bool,
    xml: Seq<char>,
    a: Seq<Seq<Option<(int, int)>>>,
    b: Seq<Seq<Option<(int, int)>>>,
)
    ensures
        mentions_at(windows, xml, a + b) == mentions_at(windows, xml, a) + mentions_at(
            windows,
            xml,
            b,
        ),
    decreases b.len(),
{
    if b.len() == 0 {
        assert(a + b =~= a);
    } else {
        law_mentions_are_read_one_by_one(windows, xml, a, b.drop_last());
        assert((a + b).drop_last() =~= a + b.drop_last());
        assert(mentions_at(windows, xml, a + b) =~= mentions_at(windows, xml, a) + mentions_at(
            windows,
            xml,
            b,
        ));
    }
}

/// A match mentions the path in its first group, where that stays in the project, with
/// the text in its second.
pub proof fn law_matched_path_is_mentioned(
    windows: bool,
    xml: Seq<char>,
    groups: Seq<Option<(int, int)>>,
    first: (int, int),
    second: (int, int),
)
    requires
        groups.len() == 3,
        groups[1] == Some(first),
        groups[2] == Some(second),
    ensures
        ({
            let path = vstd::utf8::decode_utf8(encode_utf8(xml).subrange(first.0, first.1));
            let body = vstd::utf8::decode_utf8(encode_utf8(xml).subrange(second.0, second.1));
            let named = mentions_at(windows, xml, seq![groups]);
            match project_rel(windows, path) {
                Some(rel) => named == seq![Mention { path: rel, body }],
                None => named.len() == 0,
            }
        }),
{
    assert(seq![groups].drop_last() =~= seq![]);
    assert(mentions_at(windows, xml, seq![groups].drop_last()) =~= seq![]);
    assert(seq![groups].last() == groups);
    if let Some(mention) = mention_at(windows, xml, groups) {
        assert(mentions_at(windows, xml, seq![groups]) =~= seq![mention]);
    }
}

/// Whether a path is written as one within the project: with names only, between slashes.
pub open spec fn is_written_within(windows: bool, rel: Seq<char>) -> bool {
    &&& rel.len() > 0
    &&& rel[0] != '/'
    &&& !rel.contains('\\')
    &&& forall|i: int| 0 <= i < paths::parts(rel).len() ==> !(#[trigger] paths::parts(rel)[i] is Parent)
    &&& !(windows && paths::has_drive(rel))
}

/// A path within the project is known by itself and below `/codebase`, and comes out as
/// it is written.
pub proof fn law_project_paths_are_kept(windows: bool, rel: Seq<char>)
    requires
        is_written_within(windows, rel),
    ensures
        project_rel(windows, rel) == Some(rel),
        project_rel(windows, "/codebase/"@ + rel) == Some(rel),
{
    reveal_strlit("/codebase");
    reveal_strlit("/codebase/");
    paths::lemma_slashed_keeps(rel);
    paths::lemma_parts_shape(rel);
    let all = "/codebase/"@ + rel;
    assert(!climbs(rel)) by {
        assert forall|i: int| 0 <= i < paths::parts(rel).len() implies !(
        #[trigger] paths::parts(rel)[i] is Parent) && !(paths::parts(rel)[i] is Root) by {
            assert(match paths::parts(rel)[i] {
                paths::Part::Name(name) => paths::is_plain_name(name),
                paths::Part::Root => i == 0,
                _ => true,
            });
        }
    }
    assert(!"/codebase"@.is_prefix_of(rel)) by {
        if "/codebase"@.is_prefix_of(rel) {
            assert(rel.subrange(0, 9)[0] == rel[0]);
        }
    }
    assert(rel[0] != '\\') by {
        if rel[0] == '\\' {
            assert(rel.contains(rel[0]));
        }
    }
    assert(without_leading_slashes(rel) == rel);
    assert("/codebase"@ =~= all.subrange(0, 9));
    let inner = all.skip(9);
    assert(inner =~= seq!['/'] + rel);
    assert(inner.skip(1) =~= rel);
    assert(without_leading_slashes(inner) == rel);
}

/// A path that takes a step up is none within the project, however it is written.
pub proof fn law_paths_that_climb_are_refused(windows: bool, rel: Seq<char>, i: int)
    requires
        rel.len() > 0,
        rel[0] != '/',
        !rel.contains('\\'),
        0 <= i < paths::parts(rel).len(),
        paths::parts(rel)[i] is Parent,
    ensures
        project_rel(windows, rel) is None,
{
    reveal_strlit("/codebase");
    paths::lemma_slashed_keeps(rel);
    assert(!"/codebase"@.is_prefix_of(rel)) by {
        if "/codebase"@.is_prefix_of(rel) {
            assert(rel.subrange(0, 9)[0] == rel[0]);
        }
    }
    assert(rel[0] != '\\') by {
        if rel[0] == '\\' {
            assert(rel.contains(rel[0]));
        }
    }
    assert(climbs(rel));
}

/// The lines of a file are counted as they begin: the first byte begins one, and so does
/// every byte behind a line end.
pub proof fn law_lines_are_counted(content: Seq<u8>, byte: u8)
    ensures
        line_count(Seq::<u8>::empty()) == 0,
        line_count(content.push(byte)) == line_count(content) + (if content.len() == 0
            || content.last() == 10 {
            1nat
        } else {
            0
        }),
{
    let longer = content.push(byte);
    assert(longer.drop_last() =~= content);
    assert(longer.last() == byte);
    assert(line_ends(longer) == line_ends(content) + (if byte == 10 {
        1nat
    } else {
        0
    }));
}

/// Slashes of either kind before a path are dropped, as many as there are, and nothing else.
pub proof fn law_leading_slashes_are_dropped(slashes: Seq<char>, path: Seq<char>)
    requires
        forall|i: int| 0 <= i < slashes.len() ==> (#[trigger] slashes[i] == '/' || slashes[i]
            == '\\'),
        path.len() > 0 ==> path[0] != '/' && path[0] != '\\',
    ensures
        without_leading_slashes(slashes + path) == path,
    decreases slashes.len(),
{
    let all = slashes + path;
    if slashes.len() == 0 {
        assert(all =~= path);
    } else {
        let fewer = slashes.skip(1);
        assert forall|i: int| 0 <= i < fewer.len() implies (#[trigger] fewer[i] == '/' || fewer[i]
            == '\\') by {
            assert(fewer[i] == slashes[i + 1]);
        }
        law_leading_slashes_are_dropped(fewer, path);
        assert(all[0] == slashes[0]);
        assert(all.skip(1) =~= fewer + path);
    }
}

} // verus!
