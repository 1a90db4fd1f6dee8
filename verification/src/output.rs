//! Results and errors as plain text.
use crate::text;
use crate::types::{
    Failure, FileEntry, Found, Meta, Outcome, SearchError, SearchMeta, SearchResult,
};
use vstd::prelude::*;
use vstd::utf8::encode_utf8;

verus! {

/// The limits that a search ran with.
#[derive(Debug, Clone, Copy, PartialEq, Eq, Structural)]
pub struct SearchOutputConfig {
    pub max_turns: usize,
    pub max_results: usize,
    pub max_commands: usize,
}

/// The patterns of at least three bytes, each once, where it first stands.
pub open spec fn keywords(patterns: Seq<Seq<char>>) -> Seq<Seq<char>>
    decreases patterns.len(),
{
    if patterns.len() == 0 {
        seq![]
    } else {
        let before = keywords(patterns.drop_last());
        let pattern = patterns.last();
        if encode_utf8(pattern).len() >= 3 && !before.contains(pattern) {
            before.push(pattern)
        } else {
            before
        }
    }
}

/// Whether `pattern` is one of `patterns`.
pub fn holds(patterns: &Vec<String>, pattern: &str) -> (r: bool)
    ensures
        r == text::views(patterns@).contains(pattern@),
{
    let mut i: usize = 0;
    while i < patterns.len()
        invariant
            i <= patterns@.len(),
            forall|k: int| 0 <= k < i ==> patterns@[k]@ != pattern@,
        decreases patterns@.len() - i,
    {
        if text::same(&patterns[i], pattern) {
            assert(text::views(patterns@)[i as int] == pattern@);
            return true;
        }
        i += 1;
    }
    false
}

/// The patterns of at least three bytes, each once, where it first stands.
pub fn unique_patterns(patterns: &Vec<String>) -> (r: Vec<String>)
    ensures
        text::views(r@) == keywords(text::views(patterns@)),
{
    let mut unique: Vec<String> = Vec::new();
    let mut i: usize = 0;
    let ghost all = text::views(patterns@);
    assert(text::views(unique@) =~= keywords(all.take(0)));
    while i < patterns.len()
        invariant
            i <= patterns@.len(),
            all == text::views(patterns@),
            text::views(unique@) == keywords(all.take(i as int)),
        decreases patterns@.len() - i,
    {
        proof {
            assert(all.take(i + 1).drop_last() =~= all.take(i as int));
            assert(all.take(i + 1).last() == patterns@[i as int]@);
        }
        let ghost before = text::views(unique@);
        if patterns[i].as_str().as_bytes().len() >= 3 && !holds(&unique, &patterns[i]) {
            unique.push(patterns[i].clone());
            assert(text::views(unique@) =~= before.push(patterns@[i as int]@));
        }
        i += 1;
    }
    assert(all.take(i as int) =~= all);
    unique
}

/// No keyword stands twice, none is shorter than three bytes, and each is one
/// of the patterns.
pub proof fn law_keywords_are_distinct(patterns: Seq<Seq<char>>)
    ensures
        keywords(patterns).no_duplicates(),
        forall|i: int|
            0 <= i < keywords(patterns).len() ==> patterns.contains(
                #[trigger] keywords(patterns)[i],
            ) && encode_utf8(keywords(patterns)[i]).len() >= 3,
        forall|i: int|
            0 <= i < patterns.len() && encode_utf8(#[trigger] patterns[i]).len() >= 3
                ==> keywords(patterns).contains(patterns[i]),
    decreases patterns.len(),
{
    if patterns.len() > 0 {
        let rest = patterns.drop_last();
        law_keywords_are_distinct(rest);
        let before = keywords(rest);
        let all = keywords(patterns);
        assert forall|i: int| 0 <= i < all.len() implies patterns.contains(#[trigger] all[i])
            && encode_utf8(all[i]).len() >= 3 by {
            if i < before.len() {
                assert(all[i] == before[i]);
                let k = choose|k: int| 0 <= k < rest.len() && rest[k] == before[i];
                assert(patterns[k] == all[i]);
            } else {
                assert(all[i] == patterns[patterns.len() - 1]);
            }
        }
        assert forall|i: int|
            0 <= i < patterns.len() && encode_utf8(#[trigger] patterns[i]).len()
                >= 3 implies all.contains(patterns[i]) by {
            if i < rest.len() {
                assert(rest[i] == patterns[i]);
                let k = choose|k: int| 0 <= k < before.len() && before[k] == patterns[i];
                assert(all[k] == patterns[i]);
            } else if before.contains(patterns[i]) {
                let k = choose|k: int| 0 <= k < before.len() && before[k] == patterns[i];
                assert(all[k] == patterns[i]);
            } else {
                assert(all[all.len() - 1] == patterns[i]);
            }
        }
    }
}

/// A line range as it is shown.
pub open spec fn range_text(range: (usize, usize)) -> Seq<char> {
    "L"@ + text::decimal(range.0 as nat) + "-"@ + text::decimal(range.1 as nat)
}

/// Line ranges as they are shown.
pub open spec fn ranges_text(ranges: Seq<(usize, usize)>) -> Seq<char> {
    text::joined(Seq::new(ranges.len(), |i: int| range_text(ranges[i])), ", "@)
}

/// The line for the found file with index `index` of `count`.
pub open spec fn file_line(found: Found, index: int, count: nat) -> Seq<char> {
    "  ["@ + text::decimal((index + 1) as nat) + "/"@ + text::decimal(count) + "] "@
        + found.full_path + " ("@ + ranges_text(found.ranges) + ")"@
}

/// Line ranges as they are shown.
pub fn format_ranges(ranges: &Vec<(usize, usize)>) -> (r: String)
    ensures
        r@ == ranges_text(ranges@),
{
    let mut parts: Vec<String> = Vec::new();
    let mut i: usize = 0;
    while i < ranges.len()
        invariant
            i <= ranges@.len(),
            parts@.len() == i,
            forall|k: int| 0 <= k < i ==> (#[trigger] parts@[k])@ == range_text(ranges@[k]),
        decreases ranges@.len() - i,
    {
        let mut part = text::copied("L");
        let start = text::decimal_usize(ranges[i].0);
        let end = text::decimal_usize(ranges[i].1);
        part.append(&start);
        part.append("-");
        part.append(&end);
        parts.push(part);
        i += 1;
    }
    assert(text::views(parts@) =~= Seq::new(ranges@.len(), |i: int| range_text(ranges@[i])));
    text::join(&parts, ", ")
}

/// The line for the found file with index `index` of `count`.
pub fn format_file_line(entry: &FileEntry, index: usize, count: usize) -> (r: String)
    requires
        index < usize::MAX,
    ensures
        r@ == file_line(entry@, index as int, count as nat),
{
    let mut out = text::copied("  [");
    let number = text::decimal_usize(index + 1);
    let total = text::decimal_usize(count);
    let ranges = format_ranges(&entry.ranges);
    out.append(&number);
    out.append("/");
    out.append(&total);
    out.append("] ");
    out.append(&entry.full_path);
    out.append(" (");
    out.append(&ranges);
    out.append(")");
    out
}

/// The lines that list the found files.
pub open spec fn files_lines(files: Seq<Found>) -> Seq<Seq<char>> {
    if files.len() == 0 {
        seq!["No files found."@]
    } else {
        seq!["Found "@ + text::decimal(files.len()) + " relevant files.\n"@] + Seq::new(
            files.len(),
            |i: int| file_line(files[i], i, files.len()),
        )
    }
}

/// What is said where nothing was found.
pub open spec fn nothing_found(raw_response: Option<Seq<char>>) -> Seq<char> {
    match raw_response {
        Some(raw) => "No relevant files found.\n\nRaw response:\n"@ + raw,
        None => "No relevant files found."@,
    }
}

/// The text for a search that did not fail.
pub open spec fn success_text(outcome: Outcome) -> Seq<char> {
    let patterns = keywords(outcome.rg_patterns);
    if outcome.files.len() == 0 && patterns.len() == 0 {
        nothing_found(outcome.raw_response)
    } else if patterns.len() == 0 {
        text::joined(files_lines(outcome.files), "\n"@)
    } else {
        text::joined(
            files_lines(outcome.files) + seq![
                ""@,
                "grep keywords: "@ + text::joined(patterns, ", "@),
            ],
            "\n"@,
        )
    }
}

/// What is said where nothing was found.
pub fn format_no_relevant_files(raw_response: Option<&str>) -> (r: String)
    ensures
        r@ == nothing_found(text::opt_str_view(raw_response)),
{
    match raw_response {
        Some(raw) => {
            let mut out = text::copied("No relevant files found.\n\nRaw response:\n");
            out.append(raw);
            out
        },
        None => text::copied("No relevant files found."),
    }
}

/// The lines that list the found files.
pub fn list_files(files: &Vec<FileEntry>) -> (r: Vec<String>)
    ensures
        text::views(r@) == files_lines(crate::types::files_view(files@)),
{
    let mut parts: Vec<String> = Vec::new();
    let ghost shown = crate::types::files_view(files@);
    if files.len() == 0 {
        parts.push(text::copied("No files found."));
        assert(text::views(parts@) =~= files_lines(shown));
        return parts;
    }
    let count = files.len();
    let mut head = text::copied("Found ");
    let total = text::decimal_usize(count);
    head.append(&total);
    head.append(" relevant files.\n");
    parts.push(head);
    let mut i: usize = 0;
    while i < files.len()
        invariant
            i <= files@.len(),
            count == files@.len(),
            shown == crate::types::files_view(files@),
            parts@.len() == i + 1,
            parts@[0]@ == "Found "@ + text::decimal(count as nat) + " relevant files.\n"@,
            forall|k: int|
                0 <= k < i ==> (#[trigger] parts@[k + 1])@ == file_line(shown[k], k, count as nat),
        decreases files@.len() - i,
    {
        let ghost before = parts@;
        parts.push(format_file_line(&files[i], i, count));
        assert forall|k: int| 0 <= k < i + 1 implies (#[trigger] parts@[k + 1])@ == file_line(
            shown[k],
            k,
            count as nat,
        ) by {
            if k < i {
                assert(parts@[k + 1] == before[k + 1]);
            }
        }
        i += 1;
    }
    assert forall|k: int| 0 <= k < text::views(parts@).len() implies (#[trigger] text::views(
        parts@,
    )[k]) == files_lines(shown)[k] by {
        if k > 0 {
            assert(parts@[(k - 1) + 1]@ == file_line(shown[k - 1], k - 1, count as nat));
        }
    }
    assert(text::views(parts@) =~= files_lines(shown));
    parts
}

/// The text for a search that did not fail: the found files with their line
/// ranges, and the patterns that were searched for.
pub fn format_search_success(result: &SearchResult) -> (r: String)
    ensures
        r@ == success_text(result@),
{
    let patterns = unique_patterns(&result.rg_patterns);
    if result.files.len() == 0 && patterns.len() == 0 {
        return match &result.raw_response {
            Some(raw) => format_no_relevant_files(Some(raw.as_str())),
            None => format_no_relevant_files(None),
        };
    }
    let mut parts = list_files(&result.files);
    if patterns.len() > 0 {
        let ghost before = text::views(parts@);
        let mut line = text::copied("grep keywords: ");
        let all = text::join(&patterns, ", ");
        line.append(&all);
        let blank = text::copied("");
        parts.push(blank);
        parts.push(line);
        assert(text::views(parts@) =~= before + seq![""@, line@]);
    }
    text::join(&parts, "\n")
}

/// A number as `Debug` shows an optional one.
pub open spec fn opt_number_text(number: Option<usize>) -> Seq<char> {
    match number {
        Some(n) => "Some("@ + text::decimal(n as nat) + ")"@,
        None => "None"@,
    }
}

/// A number of tenths, with its decimal.
pub open spec fn tenths_text(tenths: u64) -> Seq<char> {
    text::decimal((tenths / 10) as nat) + "."@ + text::decimal((tenths % 10) as nat)
}

/// A number of tenths as `Debug` shows an optional one.
pub open spec fn opt_tenths_text(tenths: Option<u64>) -> Seq<char> {
    match tenths {
        Some(n) => "Some("@ + tenths_text(n) + ")"@,
        None => "None"@,
    }
}

/// A number of tenths, without a decimal that is zero.
pub open spec fn short_tenths_text(tenths: u64) -> Seq<char> {
    if tenths % 10 == 0 {
        text::decimal((tenths / 10) as nat)
    } else {
        tenths_text(tenths)
    }
}

/// What helps against an error.
pub open spec fn hint_text(code: Option<Seq<char>>) -> Seq<char> {
    match code {
        Some(code) => if code == "PAYLOAD_TOO_LARGE"@ || code == "TIMEOUT"@ {
            "\n[hint] Try: reduce scope snapshot depth, add exclude.txt entries, or narrow project_path."@
        } else if code == "AUTH_ERROR"@ {
            "\n[hint] Authentication error. Ensure a fresh WINDSURF_API_KEY is configured."@
        } else if code == "RATE_LIMITED"@ {
            "\n[hint] Rate limited. Wait a moment and retry."@
        } else {
            ""@
        },
        None => ""@,
    }
}

/// The limits that a search ran with.
pub open spec fn limits_text(config: Option<SearchOutputConfig>) -> Seq<char> {
    match config {
        Some(config) => "\n[config] max_turns="@ + text::decimal(config.max_turns as nat)
            + ", max_results="@ + text::decimal(config.max_results as nat) + ", max_commands="@
            + text::decimal(config.max_commands as nat),
        None => ""@,
    }
}

/// What is known of the way in which a search failed. Nothing is said where
/// neither the depth nor the error code nor the limits are known.
pub open spec fn diagnostics_text(meta: Meta, config: Option<SearchOutputConfig>) -> Seq<char> {
    if meta.tree_depth is None && meta.error_code is None && config is None {
        ""@
    } else {
        "\n\n[diagnostic] error_type="@ + (match meta.error_code {
            Some(code) => code,
            None => "unknown"@,
        }) + ", tree_depth_used="@ + opt_number_text(meta.tree_depth) + ", tree_size="@
            + opt_tenths_text(meta.tree_size_tenths_kb) + "KB"@ + (if meta.fell_back == Some(true) {
            " (auto fell back)"@
        } else {
            ""@
        }) + (if meta.context_trimmed == Some(true) {
            ", context_trimmed=true"@
        } else {
            ""@
        }) + (match meta.project_root {
            Some(root) => "\n[diagnostic] project_path="@ + root,
            None => ""@,
        }) + limits_text(config) + hint_text(meta.error_code)
    }
}

/// The text for a search that failed; none where it did not.
pub open spec fn error_text(outcome: Outcome, config: Option<SearchOutputConfig>) -> Seq<char> {
    match outcome.error {
        Some(failure) => "Error: "@ + crate::types::failure_line(failure) + diagnostics_text(
            outcome.meta,
            config,
        ),
        None => ""@,
    }
}

/// A number as `Debug` shows an optional one.
fn format_opt_number(number: Option<usize>) -> (r: String)
    ensures
        r@ == opt_number_text(number),
{
    match number {
        Some(n) => {
            let mut out = text::copied("Some(");
            let digits = text::decimal_usize(n);
            out.append(&digits);
            out.append(")");
            out
        },
        None => text::copied("None"),
    }
}

/// A number of tenths, with its decimal.
pub fn format_tenths(tenths: u64) -> (r: String)
    ensures
        r@ == tenths_text(tenths),
{
    let mut out = text::decimal_u64(tenths / 10);
    let decimal = text::decimal_u64(tenths % 10);
    out.append(".");
    out.append(&decimal);
    out
}

/// A number of tenths as `Debug` shows an optional one.
fn format_opt_tenths(tenths: Option<u64>) -> (r: String)
    ensures
        r@ == opt_tenths_text(tenths),
{
    match tenths {
        Some(n) => {
            let mut out = text::copied("Some(");
            let digits = format_tenths(n);
            out.append(&digits);
            out.append(")");
            out
        },
        None => text::copied("None"),
    }
}

/// A number of tenths, without a decimal that is zero.
pub fn format_short_tenths(tenths: u64) -> (r: String)
    ensures
        r@ == short_tenths_text(tenths),
{
    if tenths % 10 == 0 {
        text::decimal_u64(tenths / 10)
    } else {
        format_tenths(tenths)
    }
}

/// What helps against an error.
fn format_hint(code: Option<&str>) -> (r: String)
    ensures
        r@ == hint_text(text::opt_str_view(code)),
{
    match code {
        Some(code) => if text::same(code, "PAYLOAD_TOO_LARGE") || text::same(code, "TIMEOUT") {
            text::copied(
                "\n[hint] Try: reduce scope snapshot depth, add exclude.txt entries, or narrow project_path.",
            )
        } else if text::same(code, "AUTH_ERROR") {
            text::copied(
                "\n[hint] Authentication error. Ensure a fresh WINDSURF_API_KEY is configured.",
            )
        } else if text::same(code, "RATE_LIMITED") {
            text::copied("\n[hint] Rate limited. Wait a moment and retry.")
        } else {
            text::copied("")
        },
        None => text::copied(""),
    }
}

/// The limits that a search ran with.
fn format_limits(config: Option<SearchOutputConfig>) -> (r: String)
    ensures
        r@ == limits_text(config),
{
    match config {
        Some(config) => {
            let turns = text::decimal_usize(config.max_turns);
            let results = text::decimal_usize(config.max_results);
            let commands = text::decimal_usize(config.max_commands);
            let mut out = text::copied("\n[config] max_turns=");
            out.append(&turns);
            out.append(", max_results=");
            out.append(&results);
            out.append(", max_commands=");
            out.append(&commands);
            out
        },
        None => text::copied(""),
    }
}

/// Where the search ran.
fn format_project_path(project_root: &Option<String>) -> (r: String)
    ensures
        r@ == match text::opt_view(*project_root) {
            Some(root) => "\n[diagnostic] project_path="@ + root,
            None => ""@,
        },
{
    match project_root {
        Some(root) => {
            let mut out = text::copied("\n[diagnostic] project_path=");
            out.append(root);
            out
        },
        None => text::copied(""),
    }
}

/// Adds what is known of the way in which a search failed.
pub fn append_diagnostics(
    message: &mut String,
    meta: &SearchMeta,
    config: Option<SearchOutputConfig>,
)
    ensures
        final(message)@ == old(message)@ + diagnostics_text(meta@, config),
{
    if meta.tree_depth.is_none() && meta.error_code.is_none() && config.is_none() {
        message.append("");
        return;
    }
    let (code, hint) = match &meta.error_code {
        Some(code) => (code.clone(), format_hint(Some(code.as_str()))),
        None => (text::copied("unknown"), format_hint(None)),
    };
    let depth = format_opt_number(meta.tree_depth);
    let size = format_opt_tenths(meta.tree_size_tenths_kb);
    let fell_back = match meta.fell_back {
        Some(true) => " (auto fell back)",
        _ => "",
    };
    let trimmed = match meta.context_trimmed {
        Some(true) => ", context_trimmed=true",
        _ => "",
    };
    let project = format_project_path(&meta.project_root);
    let limits = format_limits(config);
    let mut out = text::copied("\n\n[diagnostic] error_type=");
    out.append(&code);
    out.append(", tree_depth_used=");
    out.append(&depth);
    out.append(", tree_size=");
    out.append(&size);
    out.append("KB");
    out.append(fell_back);
    out.append(trimmed);
    out.append(&project);
    out.append(&limits);
    out.append(&hint);
    message.append(&out);
}

/// The first line for an error.
pub fn format_error_header(error: &SearchError) -> (r: String)
    ensures
        r@ == "Error: "@ + crate::types::failure_line(error@),
{
    let mut out = text::copied("Error: ");
    let line = error.line();
    out.append(&line);
    out
}

/// The text for a search that failed, with what is known of it.
pub fn format_search_error(result: &SearchResult, config: Option<SearchOutputConfig>) -> (r: String)
    ensures
        r@ == error_text(result@, config),
{
    match &result.error {
        Some(error) => {
            let mut message = format_error_header(error);
            append_diagnostics(&mut message, &result.meta, config);
            message
        },
        None => text::copied(""),
    }
}

/// The text for a search, failed or not.
pub open spec fn output_text(outcome: Outcome) -> Seq<char> {
    if outcome.error is Some {
        error_text(outcome, None)
    } else {
        success_text(outcome)
    }
}

/// The text for a search, failed or not.
pub fn format_search_output(result: &SearchResult) -> (r: String)
    ensures
        r@ == output_text(result@),
{
    if result.error.is_some() {
        return format_search_error(result, None);
    }
    format_search_success(result)
}

/// The line that tells how large the scope snapshot was and which limits held.
pub open spec fn config_line(meta: Meta, max_turns: nat, max_results: nat) -> Seq<char> {
    match meta.tree_depth {
        Some(depth) => "\n\n[config] tree_depth="@ + text::decimal(depth as nat) + (if meta.fell_back
            == Some(true) {
            " (fell back)"@
        } else {
            ""@
        }) + ", tree_size="@ + short_tenths_text(
            match meta.tree_size_tenths_kb {
                Some(tenths) => tenths,
                None => 0,
            },
        ) + "KB, max_turns="@ + text::decimal(max_turns) + ", max_results="@ + text::decimal(
            max_results,
        ),
        None => ""@,
    }
}

/// The line that tells how large the scope snapshot was and which limits held.
fn format_config_line(meta: &SearchMeta, max_turns: usize, max_results: usize) -> (r: String)
    ensures
        r@ == config_line(meta@, max_turns as nat, max_results as nat),
{
    match meta.tree_depth {
        Some(depth) => {
            let depth_text = text::decimal_usize(depth);
            let tenths: u64 = match meta.tree_size_tenths_kb {
                Some(tenths) => tenths,
                None => 0,
            };
            let size = format_short_tenths(tenths);
            let turns = text::decimal_usize(max_turns);
            let results = text::decimal_usize(max_results);
            let fell_back = match meta.fell_back {
                Some(true) => " (fell back)",
                _ => "",
            };
            let mut out = text::copied("\n\n[config] tree_depth=");
            out.append(&depth_text);
            out.append(fell_back);
            out.append(", tree_size=");
            out.append(&size);
            out.append("KB, max_turns=");
            out.append(&turns);
            out.append(", max_results=");
            out.append(&results);
            out
        },
        None => text::copied(""),
    }
}

/// The text for a search, with the limits that it ran with.
pub open spec fn content_text(outcome: Outcome, config: SearchOutputConfig) -> Seq<char> {
    if outcome.error is Some {
        error_text(outcome, Some(config))
    } else {
        success_text(outcome) + config_line(
            outcome.meta,
            config.max_turns as nat,
            config.max_results as nat,
        )
    }
}

/// The text for a search, with the limits that it ran with: a failed one with
/// its diagnostics, another with the size of its scope snapshot.
pub fn format_search_content(result: &SearchResult, config: SearchOutputConfig) -> (r: String)
    ensures
        r@ == content_text(result@, config),
{
    if result.error.is_some() {
        return format_search_error(result, Some(config));
    }
    let mut output = format_search_success(result);
    let line = format_config_line(&result.meta, config.max_turns, config.max_results);
    output.append(&line);
    output
}

/// Keywords stand in the order in which they were first searched for.
pub proof fn law_keywords_are_in_order(a: Seq<Seq<char>>, b: Seq<Seq<char>>)
    ensures
        keywords(a).is_prefix_of(keywords(a + b)),
    decreases b.len(),
{
    if b.len() == 0 {
        assert(a + b =~= a);
    } else {
        law_keywords_are_in_order(a, b.drop_last());
        assert((a + b).drop_last() =~= a + b.drop_last());
        let before = keywords(a + b.drop_last());
        let all = keywords(a + b);
        assert(before.is_prefix_of(all));
        assert(keywords(a) =~= all.subrange(0, keywords(a).len() as int));
    }
}

/// Every range of a file is shown, by its first and its last line, in order, with a comma
/// between each two.
pub proof fn law_every_range_is_shown(ranges: Seq<(usize, usize)>, range: (usize, usize))
    ensures
        ({
            let shown = seq!['L'] + text::decimal(range.0 as nat) + seq!['-'] + text::decimal(
                range.1 as nat,
            );
            &&& ranges_text(seq![range]) == shown
            &&& ranges.len() > 0 ==> ranges_text(ranges.push(range)) == ranges_text(ranges)
                + seq![',', ' '] + shown
        }),
{
    reveal_strlit("L");
    reveal_strlit("-");
    reveal_strlit(", ");
    assert("L"@ =~= seq!['L']);
    assert("-"@ =~= seq!['-']);
    assert(", "@ =~= seq![',', ' ']);
    let one = Seq::new(1, |i: int| range_text(seq![range][i]));
    assert(one[0] == range_text(range));
    assert(ranges_text(seq![range]) == range_text(range));
    let texts = Seq::new(ranges.len(), |i: int| range_text(ranges[i]));
    let longer = ranges.push(range);
    let all = Seq::new(longer.len(), |i: int| range_text(longer[i]));
    assert(all.drop_last() =~= texts);
    assert(all.last() == range_text(range));
}

/// Every found file is shown, on a line of its own and in order: behind its number and the
/// number of files stand its full path and its ranges.
pub proof fn law_every_found_file_is_listed(files: Seq<Found>, i: int)
    requires
        0 <= i < files.len(),
    ensures
        ({
            let lines = files_lines(files);
            &&& lines.len() == files.len() + 1
            &&& lines[0] == "Found "@ + text::decimal(files.len()) + " relevant files.\n"@
            &&& lines[i + 1] == "  ["@ + text::decimal((i + 1) as nat) + "/"@ + text::decimal(
                files.len(),
            ) + "] "@ + files[i].full_path + " ("@ + ranges_text(files[i].ranges) + ")"@
        }),
{
}

/// The text for files of which one differs differs: what is shown of a file is told from
/// what is shown of another with another path of the same length, or with other ranges
/// where the paths are the same.
pub proof fn law_different_files_are_listed_differently(a: Seq<Found>, b: Seq<Found>, i: int)
    requires
        0 <= i < a.len(),
        a.len() == b.len(),
        a[i].full_path.len() == b[i].full_path.len(),
        a[i].full_path != b[i].full_path || ranges_text(a[i].ranges) != ranges_text(b[i].ranges),
    ensures
        files_lines(a) != files_lines(b),
{
    law_every_found_file_is_listed(a, i);
    law_every_found_file_is_listed(b, i);
    if files_lines(a) == files_lines(b) {
        let x = files_lines(a)[i + 1];
        let y = files_lines(b)[i + 1];
        let head = "  ["@ + text::decimal((i + 1) as nat) + "/"@ + text::decimal(a.len()) + "] "@;
        let n = head.len() as int;
        let m = a[i].full_path.len() as int;
        let k = " ("@.len() as int;
        assert(x.subrange(n, n + m) =~= a[i].full_path);
        assert(y.subrange(n, n + m) =~= b[i].full_path);
        let e = ")"@.len() as int;
        assert(x.subrange(n + m + k, x.len() - e) =~= ranges_text(a[i].ranges));
        assert(y.subrange(n + m + k, y.len() - e) =~= ranges_text(b[i].ranges));
    }
}

/// The text for a search shows the files that were found, line by line, and behind them
/// every keyword. Where there is neither it says so, with what the model said instead.
pub proof fn law_success_shows_files_and_keywords(outcome: Outcome)
    ensures
        ({
            let words = keywords(outcome.rg_patterns);
            let listing = text::joined(
                if outcome.files.len() == 0 {
                    seq!["No files found."@]
                } else {
                    files_lines(outcome.files)
                },
                seq!['\n'],
            );
            &&& outcome.files.len() > 0 && words.len() == 0 ==> success_text(outcome) == listing
            &&& words.len() > 0 ==> success_text(outcome) == listing + "\n\ngrep keywords: "@
                + text::joined(words, ", "@)
            &&& outcome.files.len() == 0 && words.len() == 0 ==> success_text(outcome)
                == "No relevant files found."@ + match outcome.raw_response {
                Some(raw) => "\n\nRaw response:\n"@ + raw,
                None => seq![],
            }
        }),
{
    let words = keywords(outcome.rg_patterns);
    let lines = files_lines(outcome.files);
    reveal_strlit("\n");
    reveal_strlit("");
    reveal_strlit("grep keywords: ");
    reveal_strlit("\n\ngrep keywords: ");
    assert("\n"@ =~= seq!['\n']);
    assert(""@ =~= seq![]);
    if words.len() > 0 {
        let line = "grep keywords: "@ + text::joined(words, ", "@);
        let all = lines + seq![""@, line];
        assert(all.drop_last() =~= lines.push(""@));
        assert(all.drop_last().drop_last() =~= lines);
        assert(lines.len() > 0);
        assert(text::joined(lines.push(""@), "\n"@) == text::joined(lines, "\n"@) + "\n"@ + ""@);
        assert(text::joined(all, "\n"@) =~= text::joined(lines, "\n"@) + "\n\ngrep keywords: "@
            + text::joined(words, ", "@));
    } else if outcome.files.len() == 0 {
        reveal_strlit("No relevant files found.");
        reveal_strlit("No relevant files found.\n\nRaw response:\n");
        reveal_strlit("\n\nRaw response:\n");
        match outcome.raw_response {
            Some(raw) => {
                assert("No relevant files found.\n\nRaw response:\n"@
                    =~= "No relevant files found."@ + "\n\nRaw response:\n"@);
                assert("No relevant files found."@ + ("\n\nRaw response:\n"@ + raw)
                    =~= "No relevant files found.\n\nRaw response:\n"@ + raw);
            },
            None => {
                assert("No relevant files found."@ + Seq::<char>::empty()
                    =~= "No relevant files found."@);
            },
        }
    }
}

/// The text for a failed search starts with the code and the message of the failure, and
/// what is known of the search stands behind it.
pub proof fn law_failure_is_shown(
    outcome: Outcome,
    code: Seq<char>,
    message: Seq<char>,
    config: SearchOutputConfig,
)
    requires
        outcome.error == Some(Failure { code, message }),
    ensures
        ("Error: "@ + code + ": "@ + message).is_prefix_of(output_text(outcome)),
        ("Error: "@ + code + ": "@ + message).is_prefix_of(content_text(outcome, config)),
        content_text(outcome, config) == "Error: "@ + code + ": "@ + message + diagnostics_text(
            outcome.meta,
            Some(config),
        ),
        output_text(outcome) == "Error: "@ + code + ": "@ + message + diagnostics_text(
            outcome.meta,
            None,
        ),
{
    let head = "Error: "@ + code + ": "@ + message;
    let line = code + ": "@ + message;
    assert("Error: "@ + line =~= head);
    let a = diagnostics_text(outcome.meta, None);
    let b = diagnostics_text(outcome.meta, Some(config));
    assert((head + a).subrange(0, head.len() as int) =~= head);
    assert((head + b).subrange(0, head.len() as int) =~= head);
}

/// The diagnostics of a failed search name its error, the depth and the size of the
/// snapshot, whether that fell back and the conversation was cut, where it ran, the limits
/// that it ran with, and what helps.
pub proof fn law_diagnostics_tell_what_is_known(
    meta: Meta,
    code: Seq<char>,
    depth: usize,
    tenths: u64,
    root: Seq<char>,
    config: SearchOutputConfig,
)
    requires
        meta.error_code == Some(code),
        meta.tree_depth == Some(depth),
        meta.tree_size_tenths_kb == Some(tenths),
        meta.project_root == Some(root),
    ensures
        diagnostics_text(meta, Some(config)) == "\n\n[diagnostic] error_type="@ + code
            + ", tree_depth_used="@ + ("Some("@ + text::decimal(depth as nat) + ")"@)
            + ", tree_size="@ + ("Some("@ + (text::decimal((tenths / 10) as nat) + "."@
            + text::decimal((tenths % 10) as nat)) + ")"@) + "KB"@ + (if meta.fell_back == Some(
            true,
        ) {
            " (auto fell back)"@
        } else {
            ""@
        }) + (if meta.context_trimmed == Some(true) {
            ", context_trimmed=true"@
        } else {
            ""@
        }) + ("\n[diagnostic] project_path="@ + root) + ("\n[config] max_turns="@ + text::decimal(
            config.max_turns as nat,
        ) + ", max_results="@ + text::decimal(config.max_results as nat) + ", max_commands="@
            + text::decimal(config.max_commands as nat)) + hint_text(Some(code)),
        hint_text(Some(code)).len() > 0 ==> code == "PAYLOAD_TOO_LARGE"@ || code == "TIMEOUT"@
            || code == "AUTH_ERROR"@ || code == "RATE_LIMITED"@,
{
    reveal_strlit("");
}

/// What helps is said for the errors that the user can do something about.
pub proof fn law_hints_are_given()
    ensures
        hint_text(Some("PAYLOAD_TOO_LARGE"@)) == hint_text(Some("TIMEOUT"@)),
        hint_text(Some("TIMEOUT"@))
            == "\n[hint] Try: reduce scope snapshot depth, add exclude.txt entries, or narrow project_path."@,
        hint_text(Some("AUTH_ERROR"@))
            == "\n[hint] Authentication error. Ensure a fresh WINDSURF_API_KEY is configured."@,
        hint_text(Some("RATE_LIMITED"@)) == "\n[hint] Rate limited. Wait a moment and retry."@,
        hint_text(None) == ""@,
{
    reveal_strlit("PAYLOAD_TOO_LARGE");
    reveal_strlit("TIMEOUT");
    reveal_strlit("AUTH_ERROR");
    reveal_strlit("RATE_LIMITED");
    assert("AUTH_ERROR"@[0] != "TIMEOUT"@[0] && "AUTH_ERROR"@[0] != "PAYLOAD_TOO_LARGE"@[0]);
    assert("RATE_LIMITED"@[0] != "TIMEOUT"@[0] && "RATE_LIMITED"@[0] != "PAYLOAD_TOO_LARGE"@[0]
        && "RATE_LIMITED"@[0] != "AUTH_ERROR"@[0]);
}

/// Behind the result of a search stand the depth and the size of its snapshot, and the
/// turns and results that it had.
pub proof fn law_limits_are_shown_behind_the_result(
    outcome: Outcome,
    config: SearchOutputConfig,
    depth: usize,
    tenths: u64,
)
    requires
        outcome.error is None,
        outcome.meta.tree_depth == Some(depth),
        outcome.meta.tree_size_tenths_kb == Some(tenths),
    ensures
        success_text(outcome).is_prefix_of(content_text(outcome, config)),
        content_text(outcome, config).skip(success_text(outcome).len() as int)
            == "\n\n[config] tree_depth="@ + text::decimal(depth as nat) + (
        if outcome.meta.fell_back == Some(true) {
            " (fell back)"@
        } else {
            ""@
        }) + ", tree_size="@ + (if tenths % 10 == 0 {
            text::decimal((tenths / 10) as nat)
        } else {
            text::decimal((tenths / 10) as nat) + "."@ + text::decimal((tenths % 10) as nat)
        }) + "KB, max_turns="@ + text::decimal(config.max_turns as nat) + ", max_results="@
            + text::decimal(config.max_results as nat),
{
    let front = success_text(outcome);
    let line = config_line(outcome.meta, config.max_turns as nat, config.max_results as nat);
    assert((front + line).subrange(0, front.len() as int) =~= front);
    assert((front + line).skip(front.len() as int) =~= line);
}

/// What is not known is told as such.
pub proof fn law_unknown_numbers_are_told(number: usize, tenths: u64)
    ensures
        opt_number_text(None) == "None"@,
        opt_tenths_text(None) == "None"@,
        opt_number_text(Some(number)) == "Some("@ + text::decimal(number as nat) + ")"@,
        opt_tenths_text(Some(tenths)) == "Some("@ + (text::decimal((tenths / 10) as nat) + "."@
            + text::decimal((tenths % 10) as nat)) + ")"@,
{
}

/// The settings of a search are told behind its result: how deep its snapshot was and
/// whether it fell back, its size, without a tenth that is zero, and the limits.
pub proof fn law_settings_are_told(meta: Meta, depth: usize, kb: u64, max_turns: nat, max_results: nat)
    requires
        meta.tree_depth == Some(depth),
        kb < 1_000_000_000,
    ensures
        ({
            let start = "\n\n[config] tree_depth="@ + text::decimal(depth as nat) + (if meta.fell_back
                == Some(true) {
                " (fell back)"@
            } else {
                ""@
            }) + ", tree_size="@;
            let end = "KB, max_turns="@;
            let limits = text::decimal(max_turns);
            let results = text::decimal(max_results);
            &&& meta.tree_size_tenths_kb == Some((kb * 10) as u64) ==> config_line(
                meta,
                max_turns,
                max_results,
            ) == start + text::decimal(kb as nat) + end + limits + ", max_results="@ + results
            &&& meta.tree_size_tenths_kb == Some((kb * 10 + 5) as u64) ==> config_line(
                meta,
                max_turns,
                max_results,
            ) == start + (text::decimal(kb as nat) + "."@ + text::decimal(5)) + end + limits
                + ", max_results="@ + results
        }),
{
    assert((kb * 10) % 10 == 0 && (kb * 10) / 10 == kb);
    assert((kb * 10 + 5) % 10 == 5 && (kb * 10 + 5) / 10 == kb);
}

} // verus!
