//! The settings of the command line: ranges, the `.env` file, pattern files,
//! and the report on a key.
use crate::credentials::{self, ExtractKeyResult, Extraction};
use crate::text;
use vstd::prelude::*;
use vstd::utf8::encode_utf8;

verus! {

/// The number that a text spells, where `usize` can hold it and it lies in the
/// range.
pub open spec fn in_range(value: Seq<char>, min: usize, max: usize) -> Option<usize> {
    match text::number(value) {
        Some(n) if min <= n <= max => Some(n as usize),
        _ => None,
    }
}

/// Whether a text spells a number that `usize` can hold.
pub open spec fn is_number(value: Seq<char>) -> bool {
    text::number(value) matches Some(n) && n <= usize::MAX
}

/// What is said of a value that is no number.
pub open spec fn no_number_text(label: Seq<char>) -> Seq<char> {
    label + " must be an integer"@
}

/// What is said of a number out of its range.
pub open spec fn out_of_range_text(label: Seq<char>, min: usize, max: usize) -> Seq<char> {
    label + " must be between "@ + text::decimal(min as nat) + " and "@ + text::decimal(max as nat)
}

/// The number that an argument spells, where it lies in the range.
pub fn parse_range(value: &str, min: usize, max: usize, label: &str) -> (r: Result<usize, String>)
    ensures
        match r {
            Ok(n) => in_range(value@, min, max) == Some(n),
            Err(message) => in_range(value@, min, max) is None && message@ == (if is_number(
                value@,
            ) {
                out_of_range_text(label@, min, max)
            } else {
                no_number_text(label@)
            }),
        },
{
    match text::parse_usize(value) {
        Some(n) => {
            if min <= n && n <= max {
                return Ok(n);
            }
            let low = text::decimal_usize(min);
            let high = text::decimal_usize(max);
            let mut message = text::copied(label);
            message.append(" must be between ");
            message.append(&low);
            message.append(" and ");
            message.append(&high);
            Err(message)
        },
        None => {
            let mut message = text::copied(label);
            message.append(" must be an integer");
            Err(message)
        },
    }
}

/// The depth that an argument spells: three to six.
pub fn parse_depth(value: &str) -> (r: Result<usize, String>)
    ensures
        match r {
            Ok(n) => in_range(value@, 3, 6) == Some(n),
            Err(message) => in_range(value@, 3, 6) is None && message@ == (if is_number(value@) {
                out_of_range_text("depth"@, 3, 6)
            } else {
                no_number_text("depth"@)
            }),
        },
{
    parse_range(value, 3, 6, "depth")
}

/// The number of turns that an argument spells: three to five.
pub fn parse_turns(value: &str) -> (r: Result<usize, String>)
    ensures
        match r {
            Ok(n) => in_range(value@, 3, 5) == Some(n),
            Err(message) => in_range(value@, 3, 5) is None && message@ == (if is_number(value@) {
                out_of_range_text("turns"@, 3, 5)
            } else {
                no_number_text("turns"@)
            }),
        },
{
    parse_range(value, 3, 5, "turns")
}

/// The number that a setting spells, where it lies in the range; else the usual one.
pub fn read_env_range(raw: Option<&str>, usual: usize, min: usize, max: usize) -> (r: usize)
    ensures
        r == (match text::opt_str_view(raw) {
            Some(value) => match in_range(value, min, max) {
                Some(n) => n,
                None => usual,
            },
            None => usual,
        }),
{
    match raw {
        Some(value) => match text::parse_usize(value) {
            Some(n) => if min <= n && n <= max {
                n
            } else {
                usual
            },
            None => usual,
        },
        None => usual,
    }
}

/// Whether a setting that is on unless it is switched off is on.
pub open spec fn stays_on(raw: Option<Seq<char>>) -> bool {
    match raw {
        Some(value) => {
            let word = text::ascii_lowered(text::trimmed(value));
            word != "0"@ && word != "false"@ && word != "no"@ && word != "off"@
        },
        None => true,
    }
}

/// Whether paths are filtered: unless the setting says `0`, `false`, `no` or `off`.
pub fn path_filter_switch(raw: Option<&str>) -> (r: bool)
    ensures
        r == stays_on(text::opt_str_view(raw)),
{
    match raw {
        Some(value) => {
            let trimmed = text::trim(value);
            let word = text::to_ascii_lower(&trimmed);
            !(text::same(&word, "0") || text::same(&word, "false") || text::same(&word, "no")
                || text::same(&word, "off"))
        },
        None => true,
    }
}

/// A value without the quotes around it.
pub open spec fn unquoted(value: Seq<char>) -> Seq<char> {
    if value.len() >= 2 && value[0] == value.last() && (value[0] == '"' || value[0] == '\'') {
        value.subrange(1, value.len() - 1)
    } else {
        value
    }
}

/// A value without the quotes around it.
pub fn strip_quotes(value: &str) -> (r: String)
    ensures
        r@ == unquoted(value@),
{
    let chars = text::chars_of(value);
    let n = chars.len();
    if n >= 2 && chars[0] == chars[n - 1] && (chars[0] == '"' || chars[0] == '\'') {
        return text::from_range(&chars, 1, n - 1);
    }
    text::copied(value)
}

/// A line of the `.env` file: a key and its value.
#[verifier::ext_equal]
pub struct Assignment {
    pub key: Seq<char>,
    pub value: Seq<char>,
}

/// What a line of the `.env` file sets, where it sets anything. Comments and
/// lines without a key do not.
pub open spec fn assignment(line: Seq<char>) -> Option<Assignment> {
    let content = text::trimmed(line);
    let at = text::until(content, '=');
    if content.len() == 0 || content[0] == '#' || at >= content.len() {
        None
    } else {
        let key = text::trimmed(content.take(at as int));
        if key.len() == 0 {
            None
        } else {
            Some(
                Assignment { key, value: unquoted(text::trimmed(content.skip(at as int + 1))) },
            )
        }
    }
}

/// A setting from the `.env` file. One in seconds is to be set in milliseconds.
#[derive(Debug, Clone, PartialEq, Eq)]
pub enum EnvEntry {
    Setting { key: String, value: String },
    TimeoutSeconds(String),
}

/// What a setting from the `.env` file says.
#[verifier::ext_equal]
pub enum Entry {
    Setting { key: Seq<char>, value: Seq<char> },
    TimeoutSeconds(Seq<char>),
}

impl View for EnvEntry {
    type V = Entry;

    open spec fn view(&self) -> Entry {
        match self {
            EnvEntry::Setting { key, value } => Entry::Setting { key: key@, value: value@ },
            EnvEntry::TimeoutSeconds(value) => Entry::TimeoutSeconds(value@),
        }
    }
}

/// The setting that a key and its value stand for.
pub open spec fn entry_of(given: Assignment) -> Entry {
    if given.key == "API_KEY"@ {
        Entry::Setting { key: "WINDSURF_API_KEY"@, value: given.value }
    } else if given.key == "TIMEOUT"@ {
        Entry::TimeoutSeconds(given.value)
    } else {
        Entry::Setting { key: given.key, value: given.value }
    }
}

/// What settings say.
pub open spec fn entries_view(entries: Seq<EnvEntry>) -> Seq<Entry> {
    Seq::new(entries.len(), |i: int| entries[i]@)
}

/// The settings of the lines of a `.env` file, in their order.
pub open spec fn entries_of(lines: Seq<Seq<char>>) -> Seq<Entry>
    decreases lines.len(),
{
    if lines.len() == 0 {
        seq![]
    } else {
        let before = entries_of(lines.drop_last());
        match assignment(lines.last()) {
            Some(given) => before.push(entry_of(given)),
            None => before,
        }
    }
}

/// What a line of the `.env` file sets, where it sets anything.
pub fn parse_env_line(line: &str) -> (r: Option<EnvEntry>)
    ensures
        match assignment(line@) {
            Some(given) => r matches Some(entry) && entry@ == entry_of(given),
            None => r is None,
        },
{
    let content = text::trim(line);
    let chars = text::chars_of(&content);
    assert(content@.skip(0) =~= content@);
    let at = text::find_from(&chars, '=', 0);
    if chars.len() == 0 || chars[0] == '#' || at >= chars.len() {
        return None;
    }
    let front = text::from_range(&chars, 0, at);
    assert(front@ =~= content@.take(at as int));
    let key = text::trim(&front);
    if key.as_str().is_empty() {
        return None;
    }
    let back = text::from_range(&chars, at + 1, chars.len());
    assert(back@ =~= content@.skip(at + 1));
    let trimmed = text::trim(&back);
    let value = strip_quotes(&trimmed);
    Some(
        if text::same(&key, "API_KEY") {
            EnvEntry::Setting { key: text::copied("WINDSURF_API_KEY"), value }
        } else if text::same(&key, "TIMEOUT") {
            EnvEntry::TimeoutSeconds(value)
        } else {
            EnvEntry::Setting { key, value }
        },
    )
}

/// The settings of a `.env` file, in their order.
pub fn parse_env_file(content: &str) -> (r: Vec<EnvEntry>)
    ensures
        entries_view(r@) == entries_of(text::lines(content@)),
{
    let lines = text::split_lines(content);
    let ghost all = text::views(lines@);
    let mut out: Vec<EnvEntry> = Vec::new();
    let mut i: usize = 0;
    assert(all.take(0) =~= seq![]);
    assert(entries_view(out@) =~= seq![]);
    while i < lines.len()
        invariant
            i <= lines@.len(),
            all == text::views(lines@),
            entries_view(out@) == entries_of(all.take(i as int)),
        decreases lines@.len() - i,
    {
        let ghost before = entries_view(out@);
        proof {
            assert(all.take(i + 1).drop_last() =~= all.take(i as int));
            assert(all.take(i + 1).last() == lines@[i as int]@);
        }
        if let Some(entry) = parse_env_line(&lines[i]) {
            let ghost shown = entry@;
            out.push(entry);
            assert(entries_view(out@) =~= before.push(shown));
        }
        i += 1;
    }
    assert(all.take(i as int) =~= all);
    out
}

/// The patterns among the lines of a pattern file: those that are neither empty
/// nor comments.
pub open spec fn patterns_of(lines: Seq<Seq<char>>) -> Seq<Seq<char>>
    decreases lines.len(),
{
    if lines.len() == 0 {
        seq![]
    } else {
        let before = patterns_of(lines.drop_last());
        let pattern = text::trimmed(lines.last());
        if pattern.len() > 0 && pattern[0] != '#' {
            before.push(pattern)
        } else {
            before
        }
    }
}

/// The patterns of a pattern file: its lines that are neither empty nor comments.
pub fn read_pattern_lines(content: &str) -> (r: Vec<String>)
    ensures
        text::views(r@) == patterns_of(text::lines(content@)),
{
    let lines = text::split_lines(content);
    let ghost all = text::views(lines@);
    let mut out: Vec<String> = Vec::new();
    let mut i: usize = 0;
    assert(all.take(0) =~= seq![]);
    assert(text::views(out@) =~= seq![]);
    while i < lines.len()
        invariant
            i <= lines@.len(),
            all == text::views(lines@),
            text::views(out@) == patterns_of(all.take(i as int)),
        decreases lines@.len() - i,
    {
        let ghost before = text::views(out@);
        proof {
            assert(all.take(i + 1).drop_last() =~= all.take(i as int));
            assert(all.take(i + 1).last() == lines@[i as int]@);
        }
        let pattern = text::trim(&lines[i]);
        let chars = text::chars_of(&pattern);
        if chars.len() > 0 && chars[0] != '#' {
            let ghost shown = pattern@;
            out.push(pattern);
            assert(text::views(out@) =~= before.push(shown));
        }
        i += 1;
    }
    assert(all.take(i as int) =~= all);
    out
}

/// What became of saving a key: it was not asked for, it went to a file, or it
/// failed.
#[derive(Debug, Clone, PartialEq, Eq)]
pub enum SaveOutcome {
    NotAsked,
    Saved(String),
    Failed(String),
}

/// What is printed, line by line, and the code to exit with.
#[derive(Debug, Clone, PartialEq, Eq)]
pub struct CliReport {
    pub out: Vec<String>,
    pub err: Vec<String>,
    pub code: i32,
}

/// What a report says.
#[verifier::ext_equal]
pub struct Report {
    pub out: Seq<Seq<char>>,
    pub err: Seq<Seq<char>>,
    pub code: i32,
}

impl View for CliReport {
    type V = Report;

    open spec fn view(&self) -> Report {
        Report { out: text::views(self.out@), err: text::views(self.err@), code: self.code }
    }
}

/// What is printed of a key that was found.
pub open spec fn key_lines(key: Seq<char>, show: bool) -> Seq<Seq<char>> {
    if show {
        seq![
            "Windsurf API Key: "@ + key,
            "\nRun the following command to set the env var:"@,
            "  export WINDSURF_API_KEY=\""@ + key + "\""@,
        ]
    } else {
        seq!["Windsurf API Key: "@ + credentials::masked(key)]
    }
}

/// What is said of the source of a key.
pub open spec fn source_lines(found: Extraction) -> Seq<Seq<char>> {
    (match found.key_type {
        Some(kind) => seq!["Key type: "@ + kind],
        None => seq![],
    }).push("Source DB: "@ + found.db_path)
}

/// What is said of a look for a key that found none.
pub open spec fn refusal_lines(message: Seq<char>, hint: Option<Seq<char>>) -> Seq<Seq<char>> {
    match hint {
        Some(hint) => seq!["Error: "@ + message, "Hint: "@ + hint],
        None => seq!["Error: "@ + message],
    }
}

/// The report on the look for a key.
pub open spec fn key_report(found: Extraction, saved: SaveOutcome, show: bool) -> Report {
    match (found.error, found.api_key) {
        (Some(message), _) => Report {
            out: seq![],
            err: refusal_lines(message, found.hint),
            code: 1,
        },
        (None, None) => Report {
            out: seq![],
            err: refusal_lines("apiKey field is empty"@, None),
            code: 1,
        },
        (None, Some(key)) => match saved {
            SaveOutcome::Failed(message) => Report {
                out: seq![],
                err: refusal_lines(message@, None),
                code: 1,
            },
            SaveOutcome::Saved(path) => Report {
                out: key_lines(key, show),
                err: seq!["Saved Windsurf API key to "@ + path@] + source_lines(found),
                code: 0,
            },
            SaveOutcome::NotAsked => Report {
                out: key_lines(key, show),
                err: source_lines(found),
                code: 0,
            },
        },
    }
}

/// What is printed of a key that was found.
fn print_key(key: &str, show: bool) -> (r: Vec<String>)
    requires
        !show && text::size(key@) > 16 ==> {
            &&& vstd::utf8::is_char_boundary(encode_utf8(key@), 10)
            &&& vstd::utf8::is_char_boundary(encode_utf8(key@), text::size(key@) - 6)
        },
    ensures
        text::views(r@) == key_lines(key@, show),
{
    let mut out: Vec<String> = Vec::new();
    if show {
        out.push(text::chained("Windsurf API Key: ", key));
        out.push(text::copied("\nRun the following command to set the env var:"));
        let mut line = text::chained("  export WINDSURF_API_KEY=\"", key);
        line.append("\"");
        out.push(line);
    } else {
        let shown = credentials::mask_api_key(key);
        out.push(text::chained("Windsurf API Key: ", &shown));
    }
    assert(text::views(out@) =~= key_lines(key@, show));
    out
}

/// What is said of a look for a key that found none.
fn refuse(message: &str, hint: Option<&str>) -> (r: CliReport)
    ensures
        r@ == (Report {
            out: seq![],
            err: refusal_lines(message@, text::opt_str_view(hint)),
            code: 1,
        }),
{
    let mut err: Vec<String> = Vec::new();
    err.push(text::chained("Error: ", message));
    if let Some(hint) = hint {
        err.push(text::chained("Hint: ", hint));
    }
    assert(text::views(err@) =~= refusal_lines(message@, text::opt_str_view(hint)));
    let report = CliReport { out: Vec::new(), err, code: 1 };
    assert(report@.out =~= seq![]);
    report
}

/// The report on the look for a key, given what became of saving it. A key
/// that is not shown whole must be one that can be masked.
pub fn report_extraction(result: &ExtractKeyResult, saved: &SaveOutcome, show: bool) -> (r:
    CliReport)
    requires
        result@.api_key matches Some(key) ==> (!show && text::size(key) > 16 ==> {
            &&& vstd::utf8::is_char_boundary(encode_utf8(key), 10)
            &&& vstd::utf8::is_char_boundary(encode_utf8(key), text::size(key) - 6)
        }),
    ensures
        r@ == key_report(result@, *saved, show),
{
    if let Some(message) = &result.error {
        return match &result.hint {
            Some(hint) => refuse(message, Some(hint.as_str())),
            None => refuse(message, None),
        };
    }
    let key = match &result.api_key {
        Some(key) => key,
        None => return refuse("apiKey field is empty", None),
    };
    let mut err: Vec<String> = Vec::new();
    assert(text::views(err@) =~= seq![]);
    match saved {
        SaveOutcome::Failed(message) => return refuse(message, None),
        SaveOutcome::Saved(path) => err.push(text::chained("Saved Windsurf API key to ", path)),
        SaveOutcome::NotAsked => {},
    }
    if let Some(kind) = &result.key_type {
        err.push(text::chained("Key type: ", kind));
    }
    err.push(text::chained("Source DB: ", &result.db_path));
    let out = print_key(key, show);
    assert(text::views(err@) =~= key_report(result@, *saved, show).err);
    CliReport { out, err, code: 0 }
}

/// A number is taken as it is spelled, where it lies in the range, and else refused.
pub proof fn law_numbers_in_range_are_taken(n: nat, min: usize, max: usize)
    ensures
        min <= n <= max ==> in_range(text::decimal(n), min, max) == Some(n as usize),
        n < min || n > max ==> in_range(text::decimal(n), min, max) is None,
{
    text::law_decimal_reads_back(n);
}

/// A file of settings is read line by line: what one part of it sets does not depend on
/// the other part.
pub proof fn law_settings_are_read_line_by_line(before: Seq<Seq<char>>, behind: Seq<Seq<char>>)
    ensures
        entries_of(before + behind) == entries_of(before) + entries_of(behind),
    decreases behind.len(),
{
    if behind.len() == 0 {
        assert(before + behind =~= before);
    } else {
        law_settings_are_read_line_by_line(before, behind.drop_last());
        assert((before + behind).drop_last() =~= before + behind.drop_last());
    }
}

/// A name and a value with `=` between them assign the value to the name.
proof fn lemma_assignment(key: Seq<char>, value: Seq<char>)
    requires
        key.len() > 0,
        key[0] != '#',
        !key.contains('='),
        !text::is_space(key[0]),
        !text::is_space(key.last()),
        value.len() > 0 ==> !text::is_space(value[0]) && !text::is_space(value.last()),
    ensures
        assignment(key + seq!['='] + value) == Some(Assignment { key, value: unquoted(value) }),
{
    let line = key + seq!['='] + value;
    assert(line[0] == key[0]);
    assert(line.last() == if value.len() > 0 {
        value.last()
    } else {
        '='
    });
    assert(text::trimmed(line) == line);
    assert forall|i: int| 0 <= i < key.len() implies line[i] != '=' by {
        assert(line[i] == key[i]);
        assert(key.contains(key[i]));
    }
    assert(line[key.len() as int] == '=');
    text::lemma_until_is(line, '=', key.len() as int);
    assert(line.take(key.len() as int) =~= key);
    assert(line.skip(key.len() as int + 1) =~= value);
    assert(text::trimmed(key) == key);
    assert(text::trimmed(value) == value);
}

/// A line with a name, `=` and a value sets the value, which may stand in quotes; two names
/// are short for others.
pub proof fn law_lines_set_values(key: Seq<char>, value: Seq<char>, quote: char)
    requires
        key.len() > 0,
        key[0] != '#',
        !key.contains('='),
        !text::is_space(key[0]),
        !text::is_space(key.last()),
        value.len() > 0 ==> !text::is_space(value[0]) && !text::is_space(value.last()),
        value.len() > 0 ==> value[0] != '"' && value[0] != '\'',
        quote == '"' || quote == '\'',
    ensures
        ({
            let bare = entries_of(seq![key + seq!['='] + value]);
            let quoted = entries_of(seq![key + seq!['='] + (seq![quote] + value + seq![quote])]);
            &&& bare == quoted
            &&& bare.len() == 1
            &&& key == "API_KEY"@ ==> bare[0] == Entry::Setting {
                key: "WINDSURF_API_KEY"@,
                value,
            }
            &&& key == "TIMEOUT"@ ==> bare[0] == Entry::TimeoutSeconds(value)
            &&& key != "API_KEY"@ && key != "TIMEOUT"@ ==> bare[0] == Entry::Setting { key, value }
        }),
{
    let inner = seq![quote] + value + seq![quote];
    lemma_assignment(key, value);
    lemma_assignment(key, inner);
    assert(inner.subrange(1, inner.len() - 1) =~= value);
    assert(unquoted(inner) == value);
    assert(unquoted(value) == value);
    reveal_strlit("API_KEY");
    reveal_strlit("TIMEOUT");
    assert("API_KEY"@[0] != "TIMEOUT"@[0]);
    let a = seq![key + seq!['='] + value];
    let b = seq![key + seq!['='] + inner];
    assert(a.drop_last() =~= Seq::<Seq<char>>::empty());
    assert(b.drop_last() =~= Seq::<Seq<char>>::empty());
    assert(entries_of(a.drop_last()) == Seq::<Entry>::empty());
    assert(entries_of(b.drop_last()) == Seq::<Entry>::empty());
    assert(entries_of(a) =~= entries_of(b));
}

/// Lines that are comments, that hold no `=` or no name set nothing.
pub proof fn law_other_lines_set_nothing(line: Seq<char>)
    requires
        line.len() > 0,
        !text::is_space(line[0]),
        !text::is_space(line.last()),
        line[0] == '#' || line[0] == '=' || !line.contains('='),
    ensures
        entries_of(seq![line]) == Seq::<Entry>::empty(),
{
    assert(text::trimmed(line) == line);
    text::lemma_until(line, '=');
    let at = text::until(line, '=') as int;
    if at < line.len() {
        assert(line.contains(line[at]));
    }
    if line[0] == '=' {
        text::lemma_until_is(line, '=', 0);
        assert(line.take(0) =~= Seq::<char>::empty());
    }
    assert(seq![line].drop_last() =~= Seq::<Seq<char>>::empty());
    assert(entries_of(seq![line].drop_last()) == Seq::<Entry>::empty());
}

/// The patterns of a file are its lines without the white space round them, in their order,
/// but for empty ones and comments.
pub proof fn law_patterns_are_the_lines(lines: Seq<Seq<char>>)
    ensures
        patterns_of(lines) == lines.map_values(|line: Seq<char>| text::trimmed(line)).filter(
            |line: Seq<char>| line.len() > 0 && line[0] != '#',
        ),
    decreases lines.len(),
{
    reveal(Seq::filter);
    let trim = |line: Seq<char>| text::trimmed(line);
    if lines.len() > 0 {
        law_patterns_are_the_lines(lines.drop_last());
        assert(lines.map_values(trim).drop_last() =~= lines.drop_last().map_values(trim));
    }
}

/// A switch that is on by the words for on stays on.
pub proof fn law_switch_on_stays_on(value: Seq<char>)
    requires
        crate::debug::is_on(value),
    ensures
        stays_on(Some(value)),
{
    reveal_strlit("0");
    reveal_strlit("false");
    reveal_strlit("no");
    reveal_strlit("off");
    reveal_strlit("1");
    reveal_strlit("true");
    reveal_strlit("yes");
    reveal_strlit("on");
    assert("1"@[0] == '1' && "0"@[0] == '0' && "true"@[0] == 't' && "false"@[0] == 'f');
    assert("yes"@[0] == 'y' && "no"@[0] == 'n' && "on"@[1] == 'n' && "off"@[1] == 'f' && "on"@[0]
        == 'o');
}

/// A key is reported only where one was found without an error and, where it was to be saved,
/// saved. Only where it is asked for is it shown whole; that it was saved and where it came
/// from is told apart from it.
pub proof fn law_found_key_is_reported(found: Extraction, saved: SaveOutcome, show: bool)
    ensures
        ({
            let report = key_report(found, saved, show);
            &&& report.code == 0 <==> found.error is None && found.api_key is Some && !(saved is
                Failed)
            &&& report.code == 0 || report.code == 1
            &&& report.code == 1 <==> report.out.len() == 0
            &&& report.code == 0 && show ==> report.out.len() == 3 && report.out[0]
                == "Windsurf API Key: "@ + found.api_key->0 && report.out[2]
                == "  export WINDSURF_API_KEY=\""@ + found.api_key->0 + "\""@
            &&& report.code == 0 && !show ==> report.out == seq![
                "Windsurf API Key: "@ + credentials::masked(found.api_key->0),
            ]
            &&& report.code == 0 ==> report.err.last() == "Source DB: "@ + found.db_path
            &&& report.code == 0 ==> (saved matches SaveOutcome::Saved(path) ==> report.err[0]
                == "Saved Windsurf API key to "@ + path@)
            &&& found.error matches Some(message) ==> report.err[0] == "Error: "@ + message
            &&& found.error is Some ==> (found.hint matches Some(hint) ==> report.err
                =~= seq![report.err[0], "Hint: "@ + hint])
        }),
{
}

} // verus!
