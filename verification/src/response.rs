//! What the model answers: tool calls, text, or an error.
use crate::json::{self, Json, Tree};
use crate::patterns::{self, Groups};
use crate::protobuf;
use crate::text;
use vstd::prelude::*;
use vstd::utf8::encode_utf8;

verus! {

/// A tool call of the model.
#[derive(Debug, Clone, PartialEq)]
pub struct ParsedToolCall {
    pub id: String,
    pub name: String,
    pub args: Json,
}

/// What a tool call of the model says.
pub struct Call {
    pub id: Seq<char>,
    pub name: Seq<char>,
    pub args: Tree,
}

impl View for ParsedToolCall {
    type V = Call;

    open spec fn view(&self) -> Call {
        Call { id: self.id@, name: self.name@, args: self.args@ }
    }
}

/// What the tool calls of the model say.
pub open spec fn calls_view(calls: Seq<ParsedToolCall>) -> Seq<Call> {
    Seq::new(calls.len(), |i: int| calls[i]@)
}

/// Whether the arguments of every call are proper.
pub open spec fn proper_calls(calls: Seq<Call>) -> bool {
    forall|i: int| 0 <= i < calls.len() ==> json::proper((#[trigger] calls[i]).args)
}

/// One turn of the model.
#[derive(Debug, Clone, PartialEq)]
pub enum ParsedModelTurn {
    ToolCalls { thinking: String, calls: Vec<ParsedToolCall> },
    Text(String),
    Error(String),
}

/// What a turn of the model says.
#[verifier::ext_equal]
pub enum Turn {
    ToolCalls { thinking: Seq<char>, calls: Seq<Call> },
    Text(Seq<char>),
    Error(Seq<char>),
}

impl View for ParsedModelTurn {
    type V = Turn;

    open spec fn view(&self) -> Turn {
        match self {
            ParsedModelTurn::ToolCalls { thinking, calls } => Turn::ToolCalls {
                thinking: thinking@,
                calls: calls_view(calls@),
            },
            ParsedModelTurn::Text(content) => Turn::Text(content@),
            ParsedModelTurn::Error(message) => Turn::Error(message@),
        }
    }
}

/// Whether the arguments of every call of a turn are proper.
pub open spec fn proper_turn(turn: Turn) -> bool {
    match turn {
        Turn::ToolCalls { calls, .. } => proper_calls(calls),
        _ => true,
    }
}

/// Where a scan for brackets has come: the closing brackets that are still
/// due, the next one last, and whether it stands in a string.
pub struct Scan {
    pub due: Seq<char>,
    pub in_string: bool,
    pub escaped: bool,
}

/// A scan one character further; nothing where a bracket closes none.
pub open spec fn scan_step(scan: Scan, c: char) -> Option<Scan> {
    if scan.in_string {
        if scan.escaped {
            Some(Scan { escaped: false, ..scan })
        } else if c == '\\' {
            Some(Scan { escaped: true, ..scan })
        } else if c == '"' {
            Some(Scan { in_string: false, ..scan })
        } else {
            Some(scan)
        }
    } else if c == '"' {
        Some(Scan { in_string: true, ..scan })
    } else if c == '{' {
        Some(Scan { due: scan.due.push('}'), ..scan })
    } else if c == '[' {
        Some(Scan { due: scan.due.push(']'), ..scan })
    } else if c == '}' || c == ']' {
        if scan.due.len() > 0 && scan.due.last() == c {
            Some(Scan { due: scan.due.drop_last(), ..scan })
        } else {
            None
        }
    } else {
        Some(scan)
    }
}

/// The scan of a whole text.
pub open spec fn scanned(fragment: Seq<char>) -> Option<Scan>
    decreases fragment.len(),
{
    if fragment.len() == 0 {
        Some(Scan { due: seq![], in_string: false, escaped: false })
    } else {
        match scanned(fragment.drop_last()) {
            Some(scan) => scan_step(scan, fragment.last()),
            None => None,
        }
    }
}

/// `fragment` with the closing brackets that it lacks. Nothing where a bracket
/// closes none or a string is open.
pub open spec fn completed(fragment: Seq<char>) -> Option<Seq<char>> {
    match scanned(fragment) {
        Some(scan) => if scan.in_string {
            None
        } else {
            Some(fragment + scan.due.reverse())
        },
        None => None,
    }
}

/// A scan that has failed stays failed.
proof fn lemma_scan_failed(fragment: Seq<char>, k: int)
    requires
        0 <= k <= fragment.len(),
        scanned(fragment.take(k)) is None,
    ensures
        scanned(fragment) is None,
    decreases fragment.len() - k,
{
    if k < fragment.len() {
        assert(fragment.take(k + 1).drop_last() =~= fragment.take(k));
        lemma_scan_failed(fragment, k + 1);
    } else {
        assert(fragment.take(k) =~= fragment);
    }
}

/// `fragment` with the closing brackets that it lacks.
pub fn complete_json_fragment(fragment: &str) -> (r: Option<String>)
    ensures
        text::opt_view(r) == completed(fragment@),
{
    let chars = text::chars_of(fragment);
    let mut stack: Vec<char> = Vec::new();
    let mut in_string = false;
    let mut escaped = false;
    let mut i: usize = 0;
    assert(fragment@.take(0) =~= seq![]);
    while i < chars.len()
        invariant
            chars@ == fragment@,
            i <= chars@.len(),
            scanned(fragment@.take(i as int)) == Some(Scan { due: stack@, in_string, escaped }),
        decreases chars@.len() - i,
    {
        let c = chars[i];
        proof {
            assert(fragment@.take(i + 1).drop_last() =~= fragment@.take(i as int));
            assert(fragment@.take(i + 1).last() == c);
        }
        if in_string {
            if escaped {
                escaped = false;
            } else if c == '\\' {
                escaped = true;
            } else if c == '"' {
                in_string = false;
            }
        } else if c == '"' {
            in_string = true;
        } else if c == '{' {
            stack.push('}');
        } else if c == '[' {
            stack.push(']');
        } else if c == '}' || c == ']' {
            let ghost due = stack@;
            match stack.pop() {
                Some(top) => {
                    if top != c {
                        proof {
                            lemma_scan_failed(fragment@, i + 1);
                        }
                        return None;
                    }
                    assert(stack@ =~= due.drop_last());
                },
                None => {
                    proof {
                        lemma_scan_failed(fragment@, i + 1);
                    }
                    return None;
                },
            }
        }
        i += 1;
    }
    assert(fragment@.take(i as int) =~= fragment@);
    if in_string {
        return None;
    }
    let ghost due = stack@;
    let mut out = text::copied(fragment);
    let mut k: usize = stack.len();
    while k > 0
        invariant
            k <= stack@.len(),
            due == stack@,
            out@ == fragment@ + due.reverse().take(due.len() - k),
        decreases k,
    {
        k -= 1;
        out.push(stack[k]);
        assert(out@ =~= fragment@ + due.reverse().take(due.len() - k));
    }
    assert(out@ =~= fragment@ + due.reverse());
    Some(out)
}

/// Closing brackets that are due leave none due.
proof fn lemma_scan_closes(fragment: Seq<char>, scan: Scan, k: int)
    requires
        scanned(fragment) == Some(scan),
        !scan.in_string,
        forall|i: int|
            0 <= i < scan.due.len() ==> (#[trigger] scan.due[i] == '}' || scan.due[i] == ']'),
        0 <= k <= scan.due.len(),
    ensures
        scanned(fragment + scan.due.reverse().take(k)) == Some(
            Scan { due: scan.due.take(scan.due.len() - k), ..scan },
        ),
    decreases k,
{
    let closing = scan.due.reverse();
    if k == 0 {
        assert(fragment + closing.take(0) =~= fragment);
        assert(scan.due.take(scan.due.len() as int) =~= scan.due);
    } else {
        lemma_scan_closes(fragment, scan, k - 1);
        let longer = fragment + closing.take(k);
        assert(longer.drop_last() =~= fragment + closing.take(k - 1));
        assert(longer.last() == scan.due[scan.due.len() - k]);
        let due = scan.due.take(scan.due.len() - k + 1);
        assert(due.last() == scan.due[scan.due.len() - k]);
        assert(due.drop_last() =~= scan.due.take(scan.due.len() - k));
    }
}

/// What is due is always closing brackets.
proof fn lemma_due_closes(fragment: Seq<char>)
    ensures
        scanned(fragment) matches Some(scan) ==> forall|i: int|
            0 <= i < scan.due.len() ==> (#[trigger] scan.due[i] == '}' || scan.due[i] == ']'),
    decreases fragment.len(),
{
    if fragment.len() > 0 {
        lemma_due_closes(fragment.drop_last());
    }
}

/// A completed fragment lacks no bracket: it starts with the fragment, and
/// completing it again changes nothing.
pub proof fn law_completed_is_complete(fragment: Seq<char>)
    ensures
        completed(fragment) matches Some(full) ==> fragment.is_prefix_of(full) && completed(full)
            == Some(full),
{
    if let Some(full) = completed(fragment) {
        let scan = scanned(fragment).unwrap();
        lemma_due_closes(fragment);
        lemma_scan_closes(fragment, scan, scan.due.len() as int);
        assert(scan.due.reverse().take(scan.due.len() as int) =~= scan.due.reverse());
        assert(full.subrange(0, fragment.len() as int) =~= fragment);
        let none_due = scanned(full).unwrap().due;
        assert(none_due.len() == 0);
        assert(full + none_due.reverse() =~= full);
    }
}

/// `value` without the white space at its end and the `expected` before it.
pub open spec fn without_last(value: Seq<char>, expected: char) -> Option<Seq<char>> {
    let shown = text::trimmed_end(value);
    if shown.len() > 0 && shown.last() == expected {
        Some(shown.drop_last())
    } else {
        None
    }
}

/// Takes `expected` off the end of `value`, with the white space behind it.
/// Tells whether it stood there; else `value` stays as it is.
pub fn remove_last_non_ws_char(value: &mut String, expected: char) -> (r: bool)
    ensures
        match without_last(old(value)@, expected) {
            Some(shorter) => r && final(value)@ == shorter,
            None => !r && final(value)@ == old(value)@,
        },
{
    let shown = text::trim_end(value.as_str());
    let chars = text::chars_of(&shown);
    if chars.len() == 0 || chars[chars.len() - 1] != expected {
        return false;
    }
    let shorter = text::from_range(&chars, 0, chars.len() - 1);
    assert(shorter@ =~= shown@.drop_last());
    *value = shorter;
    true
}

/// `fragment` without the white space and the commas at its end.
pub open spec fn without_commas(fragment: Seq<char>) -> Seq<char>
    decreases fragment.len(),
{
    if fragment.len() > 0 && (text::is_space(fragment.last()) || fragment.last() == ',') {
        without_commas(fragment.drop_last())
    } else {
        fragment
    }
}

/// `fragment` without the white space and the commas at its end.
fn trim_commas(fragment: &str) -> (r: String)
    ensures
        r@ == without_commas(fragment@),
{
    let chars = text::chars_of(fragment);
    let mut end: usize = chars.len();
    assert(fragment@.take(end as int) =~= fragment@);
    while end > 0 && (text::is_white_space(chars[end - 1]) || chars[end - 1] == ',')
        invariant
            chars@ == fragment@,
            end <= chars@.len(),
            without_commas(fragment@.take(end as int)) == without_commas(fragment@),
        decreases end,
    {
        assert(fragment@.take(end as int).drop_last() =~= fragment@.take(end - 1));
        end -= 1;
    }
    let r = text::from_range(&chars, 0, end);
    assert(r@ =~= fragment@.take(end as int));
    r
}

/// The tree, where it is an object.
pub open spec fn object_only(tree: Tree) -> Option<Tree> {
    if tree is Object {
        Some(tree)
    } else {
        None
    }
}

/// The object that `candidate` spells, as it is or with the brackets that it
/// lacks; where it spells no JSON either way, the object that it spells without
/// its last brace, up to `tries` times.
pub open spec fn repaired_object(candidate: Seq<char>, tries: nat) -> Option<Tree>
    decreases tries,
{
    if tries == 0 {
        None
    } else {
        match json::json_parse(candidate) {
            Some(tree) => object_only(tree),
            None => match parsed_completion(candidate) {
                Some(tree) => object_only(tree),
                None => match without_last(candidate, '}') {
                    Some(shorter) => repaired_object(shorter, (tries - 1) as nat),
                    None => None,
                },
            },
        }
    }
}

/// What `candidate` spells with the brackets that it lacks.
pub open spec fn parsed_completion(candidate: Seq<char>) -> Option<Tree> {
    match completed(candidate) {
        Some(full) => json::json_parse(full),
        None => None,
    }
}

/// The object that a piece of a broken JSON text spells, if it can be repaired.
pub open spec fn repaired_fragment(fragment: Seq<char>) -> Option<Tree> {
    let candidate = without_commas(text::trimmed(fragment));
    if candidate.len() == 0 {
        None
    } else {
        repaired_object(candidate, 5)
    }
}

/// `json`, where it is an object.
fn keep_object(json: Json) -> (r: Option<Json>)
    ensures
        json::opt_tree(r) == object_only(json@),
        json::proper(json@) ==> (r matches Some(kept) ==> json::proper(kept@)),
{
    match &json {
        Json::Object(_) => Some(json),
        _ => None,
    }
}

/// What `candidate` spells with the brackets that it lacks.
fn parse_completion(candidate: &str) -> (r: Option<Json>)
    ensures
        json::opt_tree(r) == parsed_completion(candidate@),
        r matches Some(kept) ==> json::proper(kept@),
{
    match complete_json_fragment(candidate) {
        Some(full) => json::parse(&full),
        None => None,
    }
}

/// The object that a piece of a broken JSON text spells, if it can be repaired.
pub fn repair_json_object_fragment(fragment: &str) -> (r: Option<Json>)
    ensures
        json::opt_tree(r) == repaired_fragment(fragment@),
        r matches Some(kept) ==> json::proper(kept@),
{
    let shown = text::trim(fragment);
    let mut candidate = trim_commas(&shown);
    if candidate.as_str().is_empty() {
        return None;
    }
    let mut tries: usize = 5;
    let ghost first = candidate@;
    while tries > 0
        invariant
            tries <= 5,
            first.len() > 0,
            repaired_fragment(fragment@) == repaired_object(first, 5),
            repaired_object(candidate@, tries as nat) == repaired_object(first, 5),
        decreases tries,
    {
        if let Some(value) = json::parse(&candidate) {
            return keep_object(value);
        }
        if let Some(value) = parse_completion(&candidate) {
            return keep_object(value);
        }
        if !remove_last_non_ws_char(&mut candidate, '}') {
            return None;
        }
        tries -= 1;
    }
    None
}

/// A command key in a text, and where its match starts and ends.
pub type KeySpan = (Seq<char>, int, int);

/// The command keys at the given matches.
pub open spec fn key_spans(raw: Seq<char>, spans: Seq<Seq<Option<(int, int)>>>) -> Seq<KeySpan>
    decreases spans.len(),
{
    if spans.len() == 0 {
        seq![]
    } else {
        let before = key_spans(raw, spans.drop_last());
        let groups = spans.last();
        if groups.len() > 1 {
            match groups[1] {
                Some((from, to)) => before.push(
                    (
                        patterns::byte_slice(raw, from, to),
                        patterns::match_start(groups),
                        patterns::match_end(groups),
                    ),
                ),
                None => before,
            }
        } else {
            before
        }
    }
}

/// Where the value behind key `i` ends: where the next key starts, or at the end.
pub open spec fn value_end(raw: Seq<char>, keys: Seq<KeySpan>, i: int) -> int {
    if i + 1 < keys.len() {
        keys[i + 1].1
    } else {
        encode_utf8(raw).len() as int
    }
}

/// The entries that the first `n` keys have with their repaired values.
pub open spec fn repaired_entries(raw: Seq<char>, keys: Seq<KeySpan>, n: int) -> Seq<
    (Seq<char>, Tree),
>
    decreases n,
{
    if n <= 0 {
        seq![]
    } else {
        let before = repaired_entries(raw, keys, n - 1);
        match repaired_fragment(
            patterns::byte_slice(raw, keys[n - 1].2, value_end(raw, keys, n - 1)),
        ) {
            Some(value) => json::inserted(before, keys[n - 1].0, value),
            None => before,
        }
    }
}

/// The commands that broken arguments still spell, given where the command
/// keys stand in them.
pub open spec fn repaired_commands(
    raw: Seq<char>,
    spans: Seq<Seq<Option<(int, int)>>>,
) -> Option<Tree> {
    let keys = key_spans(raw, spans);
    let entries = repaired_entries(raw, keys, keys.len() as int);
    if entries.len() == 0 {
        None
    } else {
        Some(Tree::Object(entries))
    }
}

/// The commands that broken arguments still spell.
pub open spec fn repaired_args(raw: Seq<char>) -> Option<Tree> {
    match patterns::regex_spans(patterns::COMMAND_KEY_PATTERN@, raw) {
        Some(spans) => repaired_commands(raw, spans),
        None => None,
    }
}

/// A command key in a text, and where its match starts and ends.
struct FoundKey {
    key: String,
    from: usize,
    to: usize,
}

/// The command keys that were found.
spec fn found_view(found: Seq<FoundKey>) -> Seq<KeySpan> {
    Seq::new(found.len(), |i: int| (found[i].key@, found[i].from as int, found[i].to as int))
}

/// The command keys at the given matches.
fn collect_keys(raw: &str, matches: &Vec<Groups>) -> (r: Vec<FoundKey>)
    requires
        patterns::proper_spans(encode_utf8(raw@), patterns::spans_view(matches@)),
    ensures
        found_view(r@) == key_spans(raw@, patterns::spans_view(matches@)),
        forall|i: int|
            0 <= i < r@.len() ==> patterns::whole_chars(
                encode_utf8(raw@),
                (#[trigger] r@[i]).from as int,
                r@[i].to as int,
            ),
        forall|i: int, j: int|
            0 <= i < j < r@.len() ==> (#[trigger] r@[i]).to <= (#[trigger] r@[j]).from,
{
    let ghost spans = patterns::spans_view(matches@);
    let ghost data = encode_utf8(raw@);
    let mut out: Vec<FoundKey> = Vec::new();
    let mut i: usize = 0;
    assert(spans.take(0) =~= seq![]);
    assert(found_view(out@) =~= seq![]);
    while i < matches.len()
        invariant
            i <= matches@.len(),
            spans == patterns::spans_view(matches@),
            data == encode_utf8(raw@),
            patterns::proper_spans(data, spans),
            found_view(out@) == key_spans(raw@, spans.take(i as int)),
            forall|k: int|
                0 <= k < out@.len() ==> patterns::whole_chars(
                    data,
                    (#[trigger] out@[k]).from as int,
                    out@[k].to as int,
                ),
            forall|k: int|
                0 <= k < out@.len() ==> exists|m: int|
                    0 <= m < i && (#[trigger] out@[k]).to as int == patterns::match_end(
                        #[trigger] spans[m],
                    ),
            forall|k: int, l: int|
                0 <= k < l < out@.len() ==> (#[trigger] out@[k]).to <= (#[trigger] out@[l]).from,
        decreases matches@.len() - i,
    {
        let groups = &matches[i];
        let ghost shown = spans[i as int];
        proof {
            assert(patterns::proper_groups(data, shown));
            assert(shown == patterns::groups_view(groups@));
            assert(spans.take(i + 1).drop_last() =~= spans.take(i as int));
            assert(spans.take(i + 1).last() == shown);
            assert(shown[0] is Some);
        }
        if groups.len() > 1 {
            if let Some((from, to)) = groups[1] {
                assert(shown[1] == Some((from as int, to as int)));
                if let Some((start, end)) = groups[0] {
                    assert(shown[0] == Some((start as int, end as int)));
                    let key = patterns::slice_bytes(raw, from, to);
                    let ghost before = out@;
                    out.push(FoundKey { key, from: start, to: end });
                    proof {
                        assert(found_view(out@) =~= found_view(before).push(
                            (key@, start as int, end as int),
                        ));
                        assert forall|k: int, l: int| 0 <= k < l < out@.len() implies (
                        #[trigger] out@[k]).to <= (#[trigger] out@[l]).from by {
                            if l == before.len() {
                                assert(out@[k] == before[k]);
                                let m = choose|m: int|
                                    0 <= m < i && before[k].to as int == patterns::match_end(
                                        #[trigger] spans[m],
                                    );
                                assert(patterns::match_end(spans[m]) <= patterns::match_start(
                                    spans[i as int],
                                ));
                            } else {
                                assert(out@[k] == before[k] && out@[l] == before[l]);
                            }
                        }
                        assert forall|k: int| 0 <= k < out@.len() implies exists|m: int|
                            0 <= m < i + 1 && (#[trigger] out@[k]).to as int == patterns::match_end(
                                #[trigger] spans[m],
                            ) by {
                            if k < before.len() {
                                assert(out@[k] == before[k]);
                                let m = choose|m: int|
                                    0 <= m < i && before[k].to as int == patterns::match_end(
                                        #[trigger] spans[m],
                                    );
                                assert(0 <= m < i + 1 && out@[k].to as int == patterns::match_end(
                                    spans[m],
                                ));
                            } else {
                                assert(out@[k].to as int == patterns::match_end(spans[i as int]));
                            }
                        }
                    }
                }
            }
        }
        i += 1;
    }
    assert(spans.take(i as int) =~= spans);
    out
}

/// The commands that broken arguments still spell, given where the command
/// keys stand in them.
pub fn repair_commands(raw: &str, matches: &Vec<Groups>) -> (r: Option<Json>)
    requires
        patterns::proper_spans(encode_utf8(raw@), patterns::spans_view(matches@)),
    ensures
        json::opt_tree(r) == repaired_commands(raw@, patterns::spans_view(matches@)),
        r matches Some(kept) ==> json::proper(kept@),
{
    let found = collect_keys(raw, matches);
    let ghost keys = key_spans(raw@, patterns::spans_view(matches@));
    let ghost data = encode_utf8(raw@);
    let total: usize = raw.as_bytes().len();
    let mut entries: Vec<(String, Json)> = Vec::new();
    let mut i: usize = 0;
    proof {
        vstd::utf8::encode_utf8_valid_utf8(raw@);
        vstd::utf8::is_char_boundary_start_end_of_seq(data);
        assert(json::entry_trees(entries@) =~= seq![]);
    }
    while i < found.len()
        invariant
            i <= found@.len(),
            found_view(found@) == keys,
            data == encode_utf8(raw@),
            total == data.len(),
            vstd::utf8::is_char_boundary(data, data.len() as int),
            forall|k: int|
                0 <= k < found@.len() ==> patterns::whole_chars(
                    data,
                    (#[trigger] found@[k]).from as int,
                    found@[k].to as int,
                ),
            forall|k: int, l: int|
                0 <= k < l < found@.len() ==> (#[trigger] found@[k]).to <= (
                #[trigger] found@[l]).from,
            json::entry_trees(entries@) == repaired_entries(raw@, keys, i as int),
            json::keys_in_order(json::entry_trees(entries@)),
            forall|k: int|
                0 <= k < json::entry_trees(entries@).len() ==> json::proper(
                    (#[trigger] json::entry_trees(entries@)[k]).1,
                ),
        decreases found@.len() - i,
    {
        assert(keys[i as int] == (
            found@[i as int].key@,
            found@[i as int].from as int,
            found@[i as int].to as int,
        ));
        let end: usize = if i + 1 < found.len() {
            assert(found@[i as int].to <= found@[i + 1].from);
            assert(keys[i + 1].1 == found@[i + 1].from as int);
            assert(patterns::whole_chars(
                data,
                found@[i + 1].from as int,
                found@[i + 1].to as int,
            ));
            found[i + 1].from
        } else {
            total
        };
        assert(patterns::whole_chars(data, found@[i as int].from as int, found@[i as int].to as int));
        let fragment = patterns::slice_bytes(raw, found[i].to, end);
        if let Some(value) = repair_json_object_fragment(&fragment) {
            proof {
                json::lemma_inserted_values(
                    json::entry_trees(entries@),
                    found@[i as int].key@,
                    value@,
                );
            }
            json::insert(&mut entries, &found[i].key, value);
        }
        i += 1;
    }
    if entries.len() == 0 {
        return None;
    }
    proof {
        json::lemma_object_view(entries);
        json::lemma_proper_object(json::entry_trees(entries@));
    }
    Some(Json::Object(entries))
}

/// The commands that broken arguments of `restricted_exec` still spell.
pub fn repair_restricted_exec_args(raw: &str) -> (r: Option<Json>)
    ensures
        json::opt_tree(r) == repaired_args(raw@),
        r matches Some(kept) ==> json::proper(kept@),
{
    match patterns::find_matches(patterns::COMMAND_KEY_PATTERN, raw) {
        Some(matches) => repair_commands(raw, &matches),
        None => None,
    }
}

/// The arguments that `raw` spells. Those of `restricted_exec` are repaired
/// where `raw` is no JSON.
pub open spec fn args_of(name: Seq<char>, raw: Seq<char>) -> Option<Tree> {
    match json::json_parse(raw) {
        Some(tree) => Some(tree),
        None => if name == "restricted_exec"@ {
            repaired_args(raw)
        } else {
            None
        },
    }
}

/// The arguments that `raw` spells.
pub fn parse_tool_call_args(name: &str, raw: &str) -> (r: Option<Json>)
    ensures
        json::opt_tree(r) == args_of(name@, raw@),
        r matches Some(kept) ==> json::proper(kept@),
{
    match json::parse(raw) {
        Some(value) => Some(value),
        None => if text::same(name, "restricted_exec") {
            repair_restricted_exec_args(raw)
        } else {
            None
        },
    }
}

/// Where the brace that brings the depth back to zero stands in `raw` from `at`
/// on, one past it.
pub open spec fn balance_end(raw: Seq<char>, at: int, depth: int) -> Option<int>
    decreases raw.len() - at,
{
    if at < 0 || at >= raw.len() {
        None
    } else if raw[at] == '{' {
        balance_end(raw, at + 1, depth + 1)
    } else if raw[at] == '}' {
        if depth - 1 == 0 {
            Some(at + 1)
        } else {
            balance_end(raw, at + 1, depth - 1)
        }
    } else {
        balance_end(raw, at + 1, depth)
    }
}

/// The object at the start of `raw`, by its braces; all of `raw` where they do
/// not balance.
pub open spec fn leading_object(raw: Seq<char>) -> Seq<char> {
    match balance_end(raw, 0, 0) {
        Some(end) => raw.take(end),
        None => raw,
    }
}

/// The object at the start of `raw`, by its braces.
pub fn first_object(raw: &str) -> (r: String)
    ensures
        r@ == leading_object(raw@),
{
    let chars = text::chars_of(raw);
    let mut depth: i128 = 0;
    let mut i: usize = 0;
    while i < chars.len()
        invariant
            chars@ == raw@,
            i <= chars@.len(),
            -i <= depth <= i,
            balance_end(raw@, i as int, depth as int) == balance_end(raw@, 0, 0),
        decreases chars@.len() - i,
    {
        let c = chars[i];
        if c == '{' {
            depth += 1;
        } else if c == '}' {
            depth -= 1;
            if depth == 0 {
                let r = text::from_range(&chars, 0, i + 1);
                assert(r@ =~= raw@.take(i + 1));
                return r;
            }
        }
        i += 1;
    }
    text::copied(raw)
}

/// A tool call in a text: what stands before it, its name, and its arguments.
pub struct TextCall {
    pub thinking: Seq<char>,
    pub name: Seq<char>,
    pub args: Tree,
}

/// The tool call at the first of the given matches.
pub open spec fn call_at(clean: Seq<char>, spans: Seq<Seq<Option<(int, int)>>>) -> Option<
    TextCall,
> {
    if spans.len() == 0 || spans[0].len() < 3 {
        None
    } else {
        match (spans[0][1], spans[0][2]) {
            (Some((name_from, name_to)), Some((args_from, args_to))) => {
                let name = patterns::byte_slice(clean, name_from, name_to);
                let raw = text::trimmed(patterns::byte_slice(clean, args_from, args_to));
                match args_of(name, leading_object(raw)) {
                    Some(args) => Some(
                        TextCall {
                            thinking: text::trimmed(
                                patterns::byte_slice(clean, 0, patterns::match_start(spans[0])),
                            ),
                            name,
                            args,
                        },
                    ),
                    None => None,
                }
            },
            _ => None,
        }
    }
}

/// The text without the marks that end a turn.
pub open spec fn without_end_marks(content: Seq<char>) -> Seq<char> {
    text::replaced(content, "</s>"@, ""@)
}

/// The tool call in a text.
pub open spec fn call_in(content: Seq<char>) -> Option<TextCall> {
    let clean = without_end_marks(content);
    match patterns::regex_spans(patterns::TOOL_CALL_PATTERN@, clean) {
        Some(spans) => call_at(clean, spans),
        None => None,
    }
}

/// A tool call that was found in a text.
#[derive(Debug, Clone, PartialEq)]
pub struct FoundCall {
    pub thinking: String,
    pub name: String,
    pub args: Json,
}

/// What an optional tool call in a text says.
pub open spec fn opt_call_view(call: Option<FoundCall>) -> Option<TextCall> {
    match call {
        Some(call) => Some(
            TextCall { thinking: call.thinking@, name: call.name@, args: call.args@ },
        ),
        None => None,
    }
}

/// The tool call at the first of the given matches.
pub fn tool_call_at(clean: &str, matches: &Vec<Groups>) -> (r: Option<FoundCall>)
    requires
        patterns::proper_spans(encode_utf8(clean@), patterns::spans_view(matches@)),
    ensures
        opt_call_view(r) == call_at(clean@, patterns::spans_view(matches@)),
        r matches Some(call) ==> json::proper(call.args@),
{
    let ghost spans = patterns::spans_view(matches@);
    let ghost data = encode_utf8(clean@);
    if matches.len() == 0 {
        return None;
    }
    let groups = &matches[0];
    let ghost shown = spans[0];
    proof {
        assert(patterns::proper_groups(data, shown));
        assert(shown == patterns::groups_view(groups@));
        vstd::utf8::encode_utf8_valid_utf8(clean@);
        vstd::utf8::is_char_boundary_start_end_of_seq(data);
    }
    if groups.len() < 3 {
        return None;
    }
    assert(shown[0] is Some);
    match (groups[0], groups[1], groups[2]) {
        (Some((start, _end)), Some((name_from, name_to)), Some((args_from, args_to))) => {
            assert(shown[0] == Some((start as int, _end as int)));
            assert(shown[1] == Some((name_from as int, name_to as int)));
            assert(shown[2] == Some((args_from as int, args_to as int)));
            let name = patterns::slice_bytes(clean, name_from, name_to);
            let args_text = patterns::slice_bytes(clean, args_from, args_to);
            let raw = text::trim(&args_text);
            let object_text = first_object(&raw);
            match parse_tool_call_args(&name, &object_text) {
                Some(args) => {
                    let before = patterns::slice_bytes(clean, 0, start);
                    Some(FoundCall { thinking: text::trim(&before), name, args })
                },
                None => None,
            }
        },
        _ => {
            assert(shown[1] is None || shown[2] is None);
            None
        },
    }
}

/// The tool call in a text.
pub fn parse_tool_call(content: &str) -> (r: Option<FoundCall>)
    ensures
        opt_call_view(r) == call_in(content@),
        r matches Some(call) ==> json::proper(call.args@),
{
    proof {
        reveal_strlit("</s>");
    }
    let clean = text::replace(content, "</s>", "");
    match patterns::find_matches(patterns::TOOL_CALL_PATTERN, &clean) {
        Some(matches) => tool_call_at(&clean, &matches),
        None => None,
    }
}

/// The first of two optional trees that is there.
pub open spec fn first_of(a: Option<Tree>, b: Option<Tree>) -> Option<Tree> {
    match a {
        Some(tree) => Some(tree),
        None => b,
    }
}

/// What stands under `key` in the function of a call.
pub open spec fn function_part(call: Tree, key: Seq<char>) -> Option<Tree> {
    match call.get("function"@) {
        Some(function) => function.get(key),
        None => None,
    }
}

/// The name that a structured call gives.
pub open spec fn structured_name(call: Tree) -> Option<Seq<char>> {
    match first_of(call.get("name"@), function_part(call, "name"@)) {
        Some(name) => name.as_text(),
        None => None,
    }
}

/// The arguments that a structured call gives. A text is read as JSON.
pub open spec fn structured_args(call: Tree) -> Option<Tree> {
    match first_of(
        first_of(call.get("args"@), call.get("arguments"@)),
        function_part(call, "arguments"@),
    ) {
        Some(args) => match args.as_text() {
            Some(raw) => json::json_parse(raw),
            None => Some(args),
        },
        None => None,
    }
}

/// The identifier of the call with index `index` that gives none.
pub open spec fn default_call_id(index: int) -> Seq<char> {
    "tool-call-"@ + text::decimal((index + 1) as nat)
}

/// A structured call, where it has a name and arguments.
pub open spec fn structured_call(call: Tree, index: int) -> Option<Call> {
    match (structured_name(call), structured_args(call)) {
        (Some(name), Some(args)) => Some(
            Call {
                id: match json::text_at(call, "id"@) {
                    Some(id) => id,
                    None => default_call_id(index),
                },
                name,
                args,
            },
        ),
        _ => None,
    }
}

/// The structured calls among the first `n` items.
pub open spec fn structured_calls(items: Seq<Tree>, n: int) -> Seq<Call>
    decreases n,
{
    if n <= 0 {
        seq![]
    } else {
        let before = structured_calls(items, n - 1);
        match structured_call(items[n - 1], n - 1) {
            Some(call) => before.push(call),
            None => before,
        }
    }
}

/// What a structured turn says before its calls.
pub open spec fn structured_thinking(value: Tree) -> Seq<char> {
    match first_of(value.get("thinking"@), value.get("output"@)) {
        Some(tree) => match tree.as_text() {
            Some(thinking) => thinking,
            None => ""@,
        },
        None => ""@,
    }
}

/// The turn that a JSON value spells, where it lists at least one call.
pub open spec fn structured_turn(value: Tree) -> Option<Turn> {
    match value.get("tool_calls"@) {
        Some(Tree::Array(items)) => {
            let calls = structured_calls(items, items.len() as int);
            if calls.len() == 0 {
                None
            } else {
                Some(Turn::ToolCalls { thinking: structured_thinking(value), calls })
            }
        },
        _ => None,
    }
}

/// What stands under `key` in the function of a call.
fn in_function<'a>(call: &'a Json, key: &str) -> (r: Option<&'a Json>)
    ensures
        json::opt_ref_tree(r) == function_part(call@, key@),
        json::proper(call@) ==> (r matches Some(found) ==> json::proper(found@)),
{
    match call.get("function") {
        Some(function) => function.get(key),
        None => None,
    }
}

/// The name that a structured call gives.
fn find_name(call: &Json) -> (r: Option<String>)
    ensures
        text::opt_view(r) == structured_name(call@),
{
    let found = match call.get("name") {
        Some(name) => Some(name),
        None => in_function(call, "name"),
    };
    match found {
        Some(name) => match name.as_str() {
            Some(content) => Some(text::copied(content)),
            None => None,
        },
        None => None,
    }
}

/// The arguments that a structured call gives.
fn find_args(call: &Json) -> (r: Option<Json>)
    requires
        json::proper(call@),
    ensures
        json::opt_tree(r) == structured_args(call@),
        r matches Some(found) ==> json::proper(found@),
{
    let found = match call.get("args") {
        Some(args) => Some(args),
        None => match call.get("arguments") {
            Some(args) => Some(args),
            None => in_function(call, "arguments"),
        },
    };
    match found {
        Some(args) => match args.as_str() {
            Some(raw) => json::parse(raw),
            None => Some(args.copied()),
        },
        None => None,
    }
}

/// A structured call, where it has a name and arguments.
fn read_call(call: &Json, index: usize) -> (r: Option<ParsedToolCall>)
    requires
        json::proper(call@),
        index < usize::MAX,
    ensures
        match r {
            Some(found) => structured_call(call@, index as int) == Some(found@) && json::proper(
                found.args@,
            ),
            None => structured_call(call@, index as int) is None,
        },
{
    let name = match find_name(call) {
        Some(name) => name,
        None => {
            return None;
        },
    };
    let args = match find_args(call) {
        Some(args) => args,
        None => {
            return None;
        },
    };
    let id = match call.text_at("id") {
        Some(id) => text::copied(id),
        None => {
            let mut id = text::copied("tool-call-");
            let digits = text::decimal_usize(index + 1);
            id.append(&digits);
            id
        },
    };
    Some(ParsedToolCall { id, name, args })
}

/// The values of a proper array are proper.
proof fn lemma_array_items_proper(items: Vec<Json>)
    requires
        json::proper(Json::Array(items)@),
    ensures
        forall|i: int| 0 <= i < items@.len() ==> json::proper((#[trigger] items@[i])@),
{
    json::lemma_array_view(items);
    json::lemma_proper_items(json::trees(items@));
    assert forall|i: int| 0 <= i < items@.len() implies json::proper((#[trigger] items@[i])@) by {
        assert(json::proper(json::trees(items@)[i]));
    }
}

/// The turn that a JSON value spells, where it lists at least one call.
pub fn parse_structured_tool_call(value: &Json) -> (r: Option<ParsedModelTurn>)
    requires
        json::proper(value@),
    ensures
        match r {
            Some(turn) => structured_turn(value@) == Some(turn@) && proper_turn(turn@),
            None => structured_turn(value@) is None,
        },
{
    let items = match value.get("tool_calls") {
        Some(Json::Array(items)) => {
            proof {
                json::lemma_array_view(*items);
                lemma_array_items_proper(*items);
            }
            items
        },
        _ => {
            return None;
        },
    };
    let ghost all = json::trees(items@);
    let mut calls: Vec<ParsedToolCall> = Vec::new();
    let mut i: usize = 0;
    assert(calls_view(calls@) =~= seq![]);
    while i < items.len()
        invariant
            i <= items@.len(),
            all == json::trees(items@),
            forall|k: int| 0 <= k < items@.len() ==> json::proper((#[trigger] items@[k])@),
            calls_view(calls@) == structured_calls(all, i as int),
            proper_calls(calls_view(calls@)),
        decreases items@.len() - i,
    {
        assert(json::proper(items@[i as int]@));
        assert(all[i as int] == items@[i as int]@);
        let ghost before = calls_view(calls@);
        if let Some(call) = read_call(&items[i], i) {
            calls.push(call);
            assert(calls_view(calls@) =~= before.push(call@));
        }
        i += 1;
    }
    if calls.len() == 0 {
        return None;
    }
    let told = match value.get("thinking") {
        Some(found) => Some(found),
        None => value.get("output"),
    };
    let thinking = match told {
        Some(found) => match found.as_str() {
            Some(content) => text::copied(content),
            None => text::copied(""),
        },
        None => text::copied(""),
    };
    Some(ParsedModelTurn::ToolCalls { thinking, calls })
}

/// The error that a JSON value reports.
pub open spec fn reported_error(value: Tree) -> Option<Seq<char>> {
    match value.get("error"@) {
        Some(error) => Some(
            "[Error] "@ + (match json::text_at(error, "code"@) {
                Some(code) => code,
                None => "unknown"@,
            }) + ": "@ + (match json::text_at(error, "message"@) {
                Some(message) => message,
                None => ""@,
            }),
        ),
        None => None,
    }
}

/// The error that a JSON value reports.
fn read_error(value: &Json) -> (r: Option<String>)
    ensures
        text::opt_view(r) == reported_error(value@),
{
    match value.get("error") {
        Some(error) => {
            let mut out = text::copied("[Error] ");
            match error.text_at("code") {
                Some(code) => out.append(code),
                None => out.append("unknown"),
            }
            out.append(": ");
            match error.text_at("message") {
                Some(message) => out.append(message),
                None => out.append(""),
            }
            Some(out)
        },
        None => None,
    }
}

/// What a frame that is a JSON object settles: an error that it reports, or
/// else the calls that it lists.
pub open spec fn json_turn(candidate: Seq<char>) -> Option<Turn> {
    if candidate.len() > 0 && candidate[0] == '{' {
        match json::json_parse(candidate) {
            Some(value) => match reported_error(value) {
                Some(message) => Some(Turn::Error(message)),
                None => structured_turn(value),
            },
            None => None,
        }
    } else {
        None
    }
}

/// What a frame that is a JSON object settles.
fn read_json_turn(candidate: &str) -> (r: Option<ParsedModelTurn>)
    ensures
        match r {
            Some(turn) => json_turn(candidate@) == Some(turn@) && proper_turn(turn@),
            None => json_turn(candidate@) is None,
        },
{
    proof {
        reveal_strlit("{");
    }
    if !text::starts_with(candidate, "{") {
        proof {
            if candidate@.len() > 0 && candidate@[0] == '{' {
                assert(candidate@.subrange(0, 1) =~= "{"@);
            }
        }
        return None;
    }
    assert(candidate@[0] == '{') by {
        assert(candidate@.subrange(0, 1)[0] == "{"@[0]);
    }
    match json::parse(candidate) {
        Some(value) => match read_error(&value) {
            Some(message) => Some(ParsedModelTurn::Error(message)),
            None => parse_structured_tool_call(&value),
        },
        None => None,
    }
}

/// What marks a tool call in a text.
pub open spec fn call_mark() -> Seq<char> {
    "[TOOL_CALLS]"@
}

/// The texts of `parts`, one after the other.
pub open spec fn concatenated(parts: Seq<Seq<char>>) -> Seq<char> {
    text::joined(parts, ""@)
}

/// The text of `acc` with those of the parts behind it that have more than ten bytes.
pub open spec fn with_long_parts(acc: Seq<char>, parts: Seq<Seq<char>>) -> Seq<char>
    decreases parts.len(),
{
    if parts.len() == 0 {
        acc
    } else if encode_utf8(parts.last()).len() > 10 {
        with_long_parts(acc, parts.drop_last()) + parts.last()
    } else {
        with_long_parts(acc, parts.drop_last())
    }
}

/// Whether one of the parts holds the mark of a tool call.
pub open spec fn any_marked(parts: Seq<Seq<char>>) -> bool {
    exists|i: int| 0 <= i < parts.len() && text::contains(#[trigger] parts[i], call_mark())
}

/// What a frame shows as text, without what is no UTF-8.
pub open spec fn frame_text(frame: Seq<u8>) -> Seq<char> {
    text::replaced(text::shown_text(frame), seq!['\u{fffd}'], seq![])
}

/// The turn that a text spells.
pub open spec fn text_turn(content: Seq<char>) -> Turn {
    match call_in(content) {
        Some(call) => Turn::ToolCalls {
            thinking: call.thinking,
            calls: seq![Call { id: "tool-call-1"@, name: call.name, args: call.args }],
        },
        None => Turn::Text(content),
    }
}

/// The turn that the frames spell, with `acc` as the text so far. The first
/// frame that is a JSON object with an error or with calls settles it. Else the
/// first frame that holds the mark of a tool call gives the text, and where there
/// is none the text is what all frames hold.
pub open spec fn turn_of_frames(frames: Seq<Seq<u8>>, acc: Seq<char>) -> Turn
    decreases frames.len(),
{
    if frames.len() == 0 {
        text_turn(acc)
    } else {
        let frame = frames[0];
        match json_turn(text::shown_text(frame)) {
            Some(turn) => turn,
            None => {
                let strings = protobuf::extracted(frame);
                if text::contains(frame_text(frame), call_mark()) {
                    text_turn(
                        if any_marked(strings) {
                            concatenated(strings)
                        } else {
                            frame_text(frame)
                        },
                    )
                } else {
                    turn_of_frames(frames.skip(1), with_long_parts(acc, strings))
                }
            },
        }
    }
}

/// The turn that a response spells.
pub open spec fn response_turn(data: Seq<u8>) -> Turn {
    turn_of_frames(protobuf::frame_messages(data), seq![])
}

/// The turn that a text spells.
fn read_text_turn(content: String) -> (r: ParsedModelTurn)
    ensures
        r@ == text_turn(content@),
        proper_turn(r@),
{
    match parse_tool_call(&content) {
        Some(found) => {
            let call = ParsedToolCall {
                id: text::copied("tool-call-1"),
                name: found.name,
                args: found.args,
            };
            let ghost shown = call@;
            let calls = vec![call];
            assert(calls_view(calls@) =~= seq![shown]);
            ParsedModelTurn::ToolCalls { thinking: found.thinking, calls }
        },
        None => ParsedModelTurn::Text(content),
    }
}

/// Whether one of the parts holds the mark of a tool call.
fn some_marked(parts: &Vec<String>) -> (r: bool)
    ensures
        r == any_marked(text::views(parts@)),
{
    let mut i: usize = 0;
    while i < parts.len()
        invariant
            i <= parts@.len(),
            forall|k: int|
                0 <= k < i ==> !text::contains(#[trigger] text::views(parts@)[k], call_mark()),
        decreases parts@.len() - i,
    {
        assert(text::views(parts@)[i as int] == parts@[i as int]@);
        if text::contains_text(&parts[i], "[TOOL_CALLS]") {
            return true;
        }
        i += 1;
    }
    false
}

/// Adds the long parts to `acc`.
fn append_long(acc: &mut String, parts: &Vec<String>)
    ensures
        final(acc)@ == with_long_parts(old(acc)@, text::views(parts@)),
{
    let mut i: usize = 0;
    let ghost all = text::views(parts@);
    let ghost before = acc@;
    assert(all.take(0) =~= seq![]);
    while i < parts.len()
        invariant
            i <= parts@.len(),
            all == text::views(parts@),
            acc@ == with_long_parts(before, all.take(i as int)),
        decreases parts@.len() - i,
    {
        proof {
            assert(all.take(i + 1).drop_last() =~= all.take(i as int));
            assert(all.take(i + 1).last() == parts@[i as int]@);
        }
        if parts[i].as_str().as_bytes().len() > 10 {
            acc.append(&parts[i]);
        }
        i += 1;
    }
    assert(all.take(i as int) =~= all);
}

/// The turn that a response spells.
pub fn parse_response(data: &[u8]) -> (r: ParsedModelTurn)
    ensures
        r@ == response_turn(data@),
        proper_turn(r@),
{
    let frames = protobuf::connect_frame_decode(data);
    let ghost all = protobuf::buffers(frames@);
    let mut all_text = String::new();
    let mut i: usize = 0;
    proof {
        reveal_strlit("\u{fffd}");
        reveal_strlit("");
        assert("\u{fffd}"@ =~= seq!['\u{fffd}']);
        assert(""@ =~= seq![]);
        assert(all.skip(0) =~= all);
        assert(all_text@ =~= seq![]);
    }
    while i < frames.len()
        invariant
            "\u{fffd}"@ == seq!['\u{fffd}'],
            ""@ == Seq::<char>::empty(),
            i <= frames@.len(),
            all == protobuf::buffers(frames@),
            turn_of_frames(all.skip(i as int), all_text@) == response_turn(data@),
        decreases frames@.len() - i,
    {
        let ghost rest = all.skip(i as int);
        proof {
            assert(rest[0] == frames@[i as int]@);
            assert(rest.skip(1) =~= all.skip(i + 1));
        }
        let candidate = text::show_bytes(&frames[i]);
        if let Some(turn) = read_json_turn(&candidate) {
            return turn;
        }
        let raw_text = text::replace(&candidate, "\u{fffd}", "");
        let strings = protobuf::extract_strings(&frames[i]);
        if text::contains_text(&raw_text, "[TOOL_CALLS]") {
            let content = if some_marked(&strings) {
                text::join(&strings, "")
            } else {
                raw_text
            };
            return read_text_turn(content);
        }
        append_long(&mut all_text, &strings);
        i += 1;
    }
    read_text_turn(all_text)
}

/// Whether a frame says nothing by itself: it is no JSON object that settles the turn, and
/// no call stands in it.
pub open spec fn is_plain_frame(frame: Seq<u8>) -> bool {
    &&& json_turn(text::shown_text(frame)) is None
    &&& !text::contains(frame_text(frame), "[TOOL_CALLS]"@)
}

/// Long strings behind a text are the strings of more than ten bytes, one after the other.
proof fn lemma_long_parts(acc: Seq<char>, parts: Seq<Seq<char>>)
    ensures
        with_long_parts(acc, parts) == acc + parts.filter(
            |part: Seq<char>| encode_utf8(part).len() > 10,
        ).flatten(),
    decreases parts.len(),
{
    let long = |part: Seq<char>| encode_utf8(part).len() > 10;
    reveal(Seq::filter);
    if parts.len() == 0 {
        assert(parts.filter(long) =~= seq![]);
        assert(acc + parts.filter(long).flatten() =~= acc);
    } else {
        let front = parts.drop_last();
        lemma_long_parts(acc, front);
        if long(parts.last()) {
            front.filter(long).lemma_flatten_push(parts.last());
            assert(acc + (front.filter(long).flatten() + parts.last()) =~= acc + front.filter(
                long,
            ).flatten() + parts.last());
        }
    }
}

/// The text of plain frames is gathered frame by frame.
proof fn lemma_plain_frames(frames: Seq<Seq<u8>>, acc: Seq<char>)
    requires
        forall|i: int| 0 <= i < frames.len() ==> is_plain_frame(#[trigger] frames[i]),
    ensures
        turn_of_frames(frames, acc) == text_turn(
            acc + frames.map_values(|frame: Seq<u8>| protobuf::extracted(frame)).flatten().filter(
                |part: Seq<char>| encode_utf8(part).len() > 10,
            ).flatten(),
        ),
    decreases frames.len(),
{
    let long = |part: Seq<char>| encode_utf8(part).len() > 10;
    let strings = |frame: Seq<u8>| protobuf::extracted(frame);
    let all = frames.map_values(strings).flatten();
    if frames.len() == 0 {
        reveal(Seq::filter);
        assert(frames.map_values(strings) =~= seq![]);
        assert(all =~= seq![]);
        assert(acc + all.filter(long).flatten() =~= acc);
    } else {
        assert(is_plain_frame(frames[0]));
        let rest = frames.skip(1);
        assert forall|i: int| 0 <= i < rest.len() implies is_plain_frame(#[trigger] rest[i]) by {
            assert(rest[i] == frames[i + 1]);
        }
        let first = protobuf::extracted(frames[0]);
        let next = with_long_parts(acc, first);
        lemma_plain_frames(rest, next);
        lemma_long_parts(acc, first);
        let others = rest.map_values(strings).flatten();
        assert(frames.map_values(strings).drop_first() =~= rest.map_values(strings));
        assert(all == first + others);
        Seq::filter_distributes_over_add(first, others, long);
        lemma_flatten_add(first.filter(long), others.filter(long));
        assert(acc + (first.filter(long).flatten() + others.filter(long).flatten()) =~= acc
            + first.filter(long).flatten() + others.filter(long).flatten());
    }
}

/// Flattening goes over concatenation.
proof fn lemma_flatten_add(a: Seq<Seq<char>>, b: Seq<Seq<char>>)
    ensures
        (a + b).flatten() == a.flatten() + b.flatten(),
    decreases a.len(),
{
    if a.len() == 0 {
        assert(a + b =~= b);
        assert(a.flatten() + b.flatten() =~= b.flatten());
    } else {
        lemma_flatten_add(a.drop_first(), b);
        assert((a + b).drop_first() =~= a.drop_first() + b);
        assert((a + b).first() == a.first());
        assert(a.first() + (a.drop_first().flatten() + b.flatten()) =~= a.first()
            + a.drop_first().flatten() + b.flatten());
    }
}

/// Where no frame settles the turn, what the model says is the text of all frames, one
/// after the other: every string of more than ten bytes in them, and nothing else.
pub proof fn law_text_of_all_frames_is_kept(data: Seq<u8>)
    requires
        forall|i: int|
            0 <= i < protobuf::frame_messages(data).len() ==> is_plain_frame(
                #[trigger] protobuf::frame_messages(data)[i],
            ),
    ensures
        ({
            let said = protobuf::frame_messages(data).map_values(
                |frame: Seq<u8>| protobuf::extracted(frame),
            ).flatten().filter(|part: Seq<char>| encode_utf8(part).len() > 10).flatten();
            match response_turn(data) {
                Turn::Text(content) => content == said,
                Turn::ToolCalls { thinking, calls } => call_in(said) == Some(
                    TextCall { thinking, name: calls[0].name, args: calls[0].args },
                ) && calls.len() == 1,
                Turn::Error(_) => false,
            }
        }),
{
    let frames = protobuf::frame_messages(data);
    lemma_plain_frames(frames, seq![]);
    let said = frames.map_values(|frame: Seq<u8>| protobuf::extracted(frame)).flatten().filter(
        |part: Seq<char>| encode_utf8(part).len() > 10,
    ).flatten();
    assert(seq![] + said =~= said);
}

/// What the model says in frames that come one after the other is what it says in the
/// first, followed by what it says in the others.
pub proof fn law_texts_of_frames_add_up(
    a: Seq<Seq<u8>>,
    b: Seq<Seq<u8>>,
    first: Seq<char>,
    second: Seq<char>,
    whole: Seq<char>,
)
    requires
        forall|i: int| 0 <= i < a.len() ==> is_plain_frame(#[trigger] a[i]),
        forall|i: int| 0 <= i < b.len() ==> is_plain_frame(#[trigger] b[i]),
        turn_of_frames(a, seq![]) == Turn::Text(first),
        turn_of_frames(b, seq![]) == Turn::Text(second),
        turn_of_frames(a + b, seq![]) == Turn::Text(whole),
    ensures
        whole == first + second,
{
    let long = |part: Seq<char>| encode_utf8(part).len() > 10;
    let strings = |frame: Seq<u8>| protobuf::extracted(frame);
    lemma_plain_frames(a, seq![]);
    lemma_plain_frames(b, seq![]);
    assert forall|i: int| 0 <= i < (a + b).len() implies is_plain_frame(#[trigger] (a + b)[i]) by {
        if i < a.len() {
            assert((a + b)[i] == a[i]);
        } else {
            assert((a + b)[i] == b[i - a.len()]);
        }
    }
    lemma_plain_frames(a + b, seq![]);
    let x = a.map_values(strings);
    let y = b.map_values(strings);
    assert((a + b).map_values(strings) =~= x + y);
    lemma_flatten_all(x, y);
    Seq::filter_distributes_over_add(x.flatten(), y.flatten(), long);
    lemma_flatten_add(x.flatten().filter(long), y.flatten().filter(long));
    assert(seq![] + first =~= first);
    assert(seq![] + (x.flatten().filter(long).flatten()) =~= x.flatten().filter(long).flatten());
    assert(seq![] + (y.flatten().filter(long).flatten()) =~= y.flatten().filter(long).flatten());
    assert(seq![] + ((x + y).flatten().filter(long).flatten()) =~= (x + y).flatten().filter(
        long,
    ).flatten());
}

/// Flattening goes over concatenation.
proof fn lemma_flatten_all(a: Seq<Seq<Seq<char>>>, b: Seq<Seq<Seq<char>>>)
    ensures
        (a + b).flatten() == a.flatten() + b.flatten(),
    decreases a.len(),
{
    if a.len() == 0 {
        assert(a + b =~= b);
        assert(a.flatten() + b.flatten() =~= b.flatten());
    } else {
        lemma_flatten_all(a.drop_first(), b);
        assert((a + b).drop_first() =~= a.drop_first() + b);
        assert((a + b).first() == a.first());
        assert(a.first() + (a.drop_first().flatten() + b.flatten()) =~= a.first()
            + a.drop_first().flatten() + b.flatten());
    }
}

/// The first frame that is not plain settles the turn: neither what was said before nor
/// what comes behind it counts. A JSON object settles it by what it says; else the call in
/// the frame does, read from its strings where one of them holds the mark of a call, and
/// from the whole frame where none does.
pub proof fn law_first_telling_frame_decides(
    before: Seq<Seq<u8>>,
    frame: Seq<u8>,
    rest: Seq<Seq<u8>>,
    acc: Seq<char>,
)
    requires
        forall|i: int| 0 <= i < before.len() ==> is_plain_frame(#[trigger] before[i]),
        !is_plain_frame(frame),
    ensures
        turn_of_frames(before + seq![frame] + rest, acc) == match json_turn(
            text::shown_text(frame),
        ) {
            Some(turn) => turn,
            None => text_turn(
                if exists|i: int|
                    0 <= i < protobuf::extracted(frame).len() && text::contains(
                        #[trigger] protobuf::extracted(frame)[i],
                        "[TOOL_CALLS]"@,
                    ) {
                    protobuf::extracted(frame).flatten()
                } else {
                    frame_text(frame)
                },
            ),
        },
    decreases before.len(),
{
    let all = before + seq![frame] + rest;
    if before.len() == 0 {
        assert(all[0] == frame);
        lemma_concatenated(protobuf::extracted(frame));
    } else {
        assert(all[0] == before[0]);
        assert(is_plain_frame(before[0]));
        let others = before.skip(1);
        assert forall|i: int| 0 <= i < others.len() implies is_plain_frame(#[trigger] others[i]) by {
            assert(others[i] == before[i + 1]);
        }
        assert(all.skip(1) =~= others + seq![frame] + rest);
        law_first_telling_frame_decides(
            others,
            frame,
            rest,
            with_long_parts(acc, protobuf::extracted(before[0])),
        );
    }
}

/// Texts joined by nothing stand one after the other.
proof fn lemma_concatenated(parts: Seq<Seq<char>>)
    ensures
        concatenated(parts) == parts.flatten(),
    decreases parts.len(),
{
    reveal_strlit("");
    assert(""@ =~= seq![]);
    if parts.len() == 1 {
        assert(parts.drop_first().flatten() =~= seq![]);
        assert(parts.flatten() =~= parts[0]);
    } else if parts.len() > 1 {
        lemma_concatenated(parts.drop_last());
        parts.drop_last().lemma_flatten_push(parts.last());
        assert(parts.drop_last().push(parts.last()) =~= parts);
        assert(concatenated(parts.drop_last()) + ""@ + parts.last() =~= concatenated(
            parts.drop_last(),
        ) + parts.last());
    }
}

/// Text in which no call is found is what the model says, unchanged.
pub proof fn law_text_without_call_is_kept(content: Seq<char>)
    requires
        patterns::regex_spans(
            r"(?s)\[TOOL_CALLS\](\w+)\[ARGS\](\{.+)"@,
            text::replaced(content, "</s>"@, ""@),
        ) matches Some(spans) ==> spans.len() == 0,
    ensures
        text_turn(content) == Turn::Text(content),
{
}

/// The first call that is found in text is what the model asks for: the name and the
/// arguments as they stand there, and the text before it as what the model thinks.
pub proof fn law_call_in_text_is_found(
    content: Seq<char>,
    spans: Seq<Seq<Option<(int, int)>>>,
    start: int,
    name: (int, int),
    args: (int, int),
    tree: Tree,
)
    requires
        ({
            let clean = text::replaced(content, "</s>"@, ""@);
            let data = encode_utf8(clean);
            &&& patterns::regex_spans(r"(?s)\[TOOL_CALLS\](\w+)\[ARGS\](\{.+)"@, clean) == Some(
                spans,
            )
            &&& spans.len() > 0
            &&& spans[0].len() == 3
            &&& spans[0][0] matches Some(whole) && whole.0 == start
            &&& spans[0][1] == Some(name)
            &&& spans[0][2] == Some(args)
            &&& json::json_parse(
                leading_object(
                    text::trimmed(vstd::utf8::decode_utf8(data.subrange(args.0, args.1))),
                ),
            ) == Some(tree)
        }),
    ensures
        ({
            let data = encode_utf8(text::replaced(content, "</s>"@, ""@));
            text_turn(content) matches Turn::ToolCalls { thinking, calls } && {
                &&& thinking == text::trimmed(vstd::utf8::decode_utf8(data.subrange(0, start)))
                &&& calls.len() == 1
                &&& calls[0].name == vstd::utf8::decode_utf8(data.subrange(name.0, name.1))
                &&& calls[0].args == tree
                &&& calls[0].id == "tool-call-1"@
            }
        }),
{
}

/// How many times a character stands in a text.
pub open spec fn times(content: Seq<char>, c: char) -> nat {
    content.filter(|other: char| other == c).len()
}

/// One character more.
proof fn lemma_times_push(content: Seq<char>, c: char, last: char)
    ensures
        times(content.push(last), c) == times(content, c) + (if last == c {
            1nat
        } else {
            0
        }),
{
    reveal(Seq::filter);
    assert(content.push(last).drop_last() =~= content);
}

/// The search for the end of an object goes on from where the braces balance as they do.
proof fn lemma_balance_end(raw: Seq<char>, at: int)
    requires
        0 <= at <= raw.len(),
    ensures
        ({
            let depth = times(raw.take(at), '{') - times(raw.take(at), '}');
            match balance_end(raw, at, depth) {
                Some(end) => at < end <= raw.len() && raw[end - 1] == '}' && times(
                    raw.take(end),
                    '{',
                ) == times(raw.take(end), '}') && forall|k: int|
                    at < k < end && raw[k - 1] == '}' ==> times(#[trigger] raw.take(k), '{')
                        != times(raw.take(k), '}'),
                None => forall|k: int|
                    at < k <= raw.len() && raw[k - 1] == '}' ==> times(#[trigger] raw.take(k), '{')
                        != times(raw.take(k), '}'),
            }
        }),
    decreases raw.len() - at,
{
    if at < raw.len() {
        let c = raw[at];
        assert(raw.take(at).push(c) =~= raw.take(at + 1));
        lemma_times_push(raw.take(at), '{', c);
        lemma_times_push(raw.take(at), '}', c);
        lemma_balance_end(raw, at + 1);
        let depth = times(raw.take(at), '{') - times(raw.take(at), '}');
        match balance_end(raw, at, depth) {
            Some(end) => {
                assert forall|k: int| at < k < end && raw[k - 1] == '}' implies times(
                    #[trigger] raw.take(k),
                    '{',
                ) != times(raw.take(k), '}') by {
                    if k > at + 1 {
                        assert(times(raw.take(k), '{') != times(raw.take(k), '}'));
                    }
                }
            },
            None => {
                assert forall|k: int| at < k <= raw.len() && raw[k - 1] == '}' implies times(
                    #[trigger] raw.take(k),
                    '{',
                ) != times(raw.take(k), '}') by {
                    if k > at + 1 {
                        assert(times(raw.take(k), '{') != times(raw.take(k), '}'));
                    }
                }
            },
        }
    }
}

/// The arguments of a call end at the first closing brace up to which as many braces close
/// as open. Where there is none they are all of the text.
pub proof fn law_object_ends_where_braces_balance(raw: Seq<char>, end: int)
    requires
        0 < end <= raw.len(),
        raw[end - 1] == '}',
        times(raw.take(end), '{') == times(raw.take(end), '}'),
        forall|k: int|
            0 < k < end && raw[k - 1] == '}' ==> times(#[trigger] raw.take(k), '{') != times(
                raw.take(k),
                '}',
            ),
    ensures
        leading_object(raw) == raw.take(end),
{
    reveal(Seq::filter);
    assert(raw.take(0) =~= seq![]);
    assert(times(raw.take(0), '{') == 0 && times(raw.take(0), '}') == 0);
    lemma_balance_end(raw, 0);
    match balance_end(raw, 0, 0) {
        Some(found) => {
            if found < end {
                assert(times(raw.take(found), '{') != times(raw.take(found), '}'));
            } else if end < found {
                assert(times(raw.take(end), '{') != times(raw.take(end), '}'));
            }
        },
        None => {
            assert(times(raw.take(end), '{') != times(raw.take(end), '}'));
        },
    }
}

/// Text whose braces never balance at a closing one is taken whole.
pub proof fn law_open_object_is_taken_whole(raw: Seq<char>)
    requires
        forall|k: int|
            0 < k <= raw.len() && raw[k - 1] == '}' ==> times(#[trigger] raw.take(k), '{')
                != times(raw.take(k), '}'),
    ensures
        leading_object(raw) == raw,
{
    reveal(Seq::filter);
    assert(raw.take(0) =~= seq![]);
    assert(times(raw.take(0), '{') == 0 && times(raw.take(0), '}') == 0);
    lemma_balance_end(raw, 0);
    if let Some(found) = balance_end(raw, 0, 0) {
        assert(times(raw.take(found), '{') != times(raw.take(found), '}'));
    }
}

/// Every call of a structured reply is taken, in order, with its own name, arguments and
/// identifier. One without an identifier is numbered by its place.
pub proof fn law_structured_calls_are_kept(
    value: Tree,
    items: Seq<Tree>,
    names: Seq<Seq<char>>,
    args: Seq<Tree>,
)
    requires
        value.get("tool_calls"@) == Some(Tree::Array(items)),
        items.len() > 0,
        names.len() == items.len(),
        args.len() == items.len(),
        forall|i: int|
            0 <= i < items.len() ==> (#[trigger] items[i]).get("name"@) == Some(
                Tree::Text(names[i]),
            ) && items[i].get("args"@) == Some(args[i]) && !(args[i] is Text),
    ensures
        structured_turn(value) matches Some(Turn::ToolCalls { calls, .. }) && calls.len()
            == items.len() && forall|i: int|
            0 <= i < items.len() ==> {
                &&& (#[trigger] calls[i]).name == names[i]
                &&& calls[i].args == args[i]
                &&& match items[i].get("id"@) {
                    Some(Tree::Text(id)) => calls[i].id == id,
                    _ => calls[i].id == "tool-call-"@ + text::decimal((i + 1) as nat),
                }
            },
{
    lemma_structured_calls(items, names, args, items.len() as int);
}

/// Calls are read up to `n`, one for each item.
proof fn lemma_structured_calls(
    items: Seq<Tree>,
    names: Seq<Seq<char>>,
    args: Seq<Tree>,
    n: int,
)
    requires
        0 <= n <= items.len(),
        names.len() == items.len(),
        args.len() == items.len(),
        forall|i: int|
            0 <= i < items.len() ==> (#[trigger] items[i]).get("name"@) == Some(
                Tree::Text(names[i]),
            ) && items[i].get("args"@) == Some(args[i]) && !(args[i] is Text),
    ensures
        structured_calls(items, n).len() == n,
        forall|i: int|
            0 <= i < n ==> {
                &&& (#[trigger] structured_calls(items, n)[i]).name == names[i]
                &&& structured_calls(items, n)[i].args == args[i]
                &&& match items[i].get("id"@) {
                    Some(Tree::Text(id)) => structured_calls(items, n)[i].id == id,
                    _ => structured_calls(items, n)[i].id == "tool-call-"@ + text::decimal(
                        (i + 1) as nat,
                    ),
                }
            },
    decreases n,
{
    if n > 0 {
        lemma_structured_calls(items, names, args, n - 1);
        let before = structured_calls(items, n - 1);
        let all = structured_calls(items, n);
        assert(items[n - 1].get("name"@) == Some(Tree::Text(names[n - 1])));
        assert(structured_call(items[n - 1], n - 1) is Some);
        assert(all == before.push(structured_call(items[n - 1], n - 1).unwrap()));
        assert forall|i: int| 0 <= i < n implies {
            &&& (#[trigger] all[i]).name == names[i]
            &&& all[i].args == args[i]
            &&& match items[i].get("id"@) {
                Some(Tree::Text(id)) => all[i].id == id,
                _ => all[i].id == "tool-call-"@ + text::decimal((i + 1) as nat),
            }
        } by {
            if i < n - 1 {
                assert(all[i] == before[i]);
            }
        }
    }
}

/// A structured call gives its arguments under `args`, else under `arguments`, else in its
/// `function`, and its name by itself or in its `function`. Arguments that are a text are
/// read as JSON.
pub proof fn law_structured_call_is_read(call: Tree, index: int, name: Seq<char>, args: Tree)
    requires
        ({
            let function = match call.get("function"@) {
                Some(function) => function,
                None => Tree::Null,
            };
            &&& call.get("name"@) == Some(Tree::Text(name)) || call.get("name"@) is None
                && function.get("name"@) == Some(Tree::Text(name))
            &&& call.get("args"@) == Some(args) || call.get("args"@) is None && (call.get(
                "arguments"@,
            ) == Some(args) || call.get("arguments"@) is None && function.get("arguments"@)
                == Some(args))
        }),
    ensures
        structured_call(call, index) matches Some(found) ==> found.name == name && (match args {
            Tree::Text(raw) => json::json_parse(raw) == Some(found.args),
            _ => found.args == args,
        }),
        structured_call(call, index) is None <==> (args matches Tree::Text(raw)
            && json::json_parse(raw) is None),
{
}

/// A structured reply says what the model thinks under `thinking`, else under `output`.
pub proof fn law_structured_thinking_is_kept(value: Tree, thinking: Seq<char>)
    requires
        value.get("thinking"@) == Some(Tree::Text(thinking)) || value.get("thinking"@) is None
            && value.get("output"@) == Some(Tree::Text(thinking)),
    ensures
        structured_turn(value) matches Some(Turn::ToolCalls { thinking: said, .. }) ==> said
            == thinking,
{
}

/// A reply that is an error is reported with its code and its message, whatever else it
/// holds.
pub proof fn law_error_frame_is_reported(
    content: Seq<char>,
    value: Tree,
    error: Tree,
    code: Seq<char>,
    message: Seq<char>,
)
    requires
        content.len() > 0,
        content[0] == '{',
        json::json_parse(content) == Some(value),
        value.get("error"@) == Some(error),
        error.get("code"@) == Some(Tree::Text(code)),
        error.get("message"@) == Some(Tree::Text(message)),
    ensures
        json_turn(content) == Some(Turn::Error("[Error] "@ + code + ": "@ + message)),
{
}

/// How JSON that was cut off is completed, one character after the other. Nothing needs
/// nothing. What opens an object or a list is closed before everything that was due; what
/// closes the innermost one takes the place of what was due for it, and nothing else may
/// close. Text in quotes, of whatever brackets, changes nothing, and has to end.
pub proof fn law_fragments_are_completed(fragment: Seq<char>, tail: Seq<char>, c: char)
    requires
        completed(fragment) == Some(fragment + tail),
    ensures
        completed(Seq::<char>::empty()) == Some(Seq::<char>::empty()),
        completed(fragment.push('{')) == Some(fragment.push('{') + (seq!['}'] + tail)),
        completed(fragment.push('[')) == Some(fragment.push('[') + (seq![']'] + tail)),
        c == '}' || c == ']' ==> completed(fragment.push(c)) == (if tail.len() > 0 && tail[0] == c {
            Some(fragment + tail)
        } else {
            None
        }),
        completed(fragment.push('"')) is None,
        c != '{' && c != '[' && c != '}' && c != ']' && c != '"' ==> completed(fragment.push(c))
            == Some(fragment.push(c) + tail),
{
    let scan = scanned(fragment).unwrap();
    let due = scan.due.reverse();
    assert(tail =~= due) by {
        assert((fragment + tail).skip(fragment.len() as int) =~= tail);
        assert((fragment + due).skip(fragment.len() as int) =~= due);
    }
    assert(Seq::<char>::empty() + Seq::<char>::empty().reverse() =~= Seq::<char>::empty());
    assert forall|d: char| #[trigger] fragment.push(d).drop_last() == fragment && fragment.push(
        d,
    ).last() == d by {
        assert(fragment.push(d).drop_last() =~= fragment);
    }
    assert(fragment.push('{').drop_last() == fragment);
    assert(fragment.push('[').drop_last() == fragment);
    assert(fragment.push('"').drop_last() == fragment);
    assert(fragment.push(c).drop_last() == fragment);
    lemma_not_escaped(fragment);
    assert(scan.due.push('}').reverse() =~= seq!['}'] + tail);
    assert(scan.due.push(']').reverse() =~= seq![']'] + tail);
    if scan.due.len() > 0 {
        assert(tail[0] == scan.due.last());
        if c == tail[0] {
            assert(fragment.push(c) + scan.due.drop_last().reverse() =~= fragment + tail);
        }
    }
}

/// Outside of quotes nothing is escaped.
proof fn lemma_not_escaped(fragment: Seq<char>)
    ensures
        scanned(fragment) matches Some(scan) ==> scan.escaped ==> scan.in_string,
    decreases fragment.len(),
{
    if fragment.len() > 0 {
        lemma_not_escaped(fragment.drop_last());
    }
}

/// Text in quotes, without quotes and backslashes of its own, is passed over.
pub proof fn law_quoted_text_is_passed_over(
    fragment: Seq<char>,
    tail: Seq<char>,
    quoted: Seq<char>,
)
    requires
        completed(fragment) == Some(fragment + tail),
        !quoted.contains('"'),
        !quoted.contains('\\'),
    ensures
        completed(fragment.push('"') + quoted) is None,
        completed((fragment.push('"') + quoted).push('"')) == Some(
            (fragment.push('"') + quoted).push('"') + tail,
        ),
{
    let scan = scanned(fragment).unwrap();
    let due = scan.due.reverse();
    assert(tail =~= due) by {
        assert((fragment + tail).skip(fragment.len() as int) =~= tail);
        assert((fragment + due).skip(fragment.len() as int) =~= due);
    }
    lemma_not_escaped(fragment);
    lemma_quoted_scan(fragment, quoted);
    let all = fragment.push('"') + quoted;
    assert(all.push('"').drop_last() =~= all);
    assert(all.push('"').last() == '"');
}

/// Inside of quotes only a quote or a backslash matters.
proof fn lemma_quoted_scan(fragment: Seq<char>, quoted: Seq<char>)
    requires
        scanned(fragment) matches Some(scan) && !scan.in_string && !scan.escaped,
        !quoted.contains('"'),
        !quoted.contains('\\'),
    ensures
        scanned(fragment.push('"') + quoted) == Some(
            Scan { in_string: true, ..scanned(fragment).unwrap() },
        ),
    decreases quoted.len(),
{
    if quoted.len() == 0 {
        assert(fragment.push('"') + quoted =~= fragment.push('"'));
        assert(fragment.push('"').drop_last() =~= fragment);
    } else {
        let front = quoted.drop_last();
        assert forall|i: int| 0 <= i < front.len() implies front[i] != '"' && front[i] != '\\' by {
            assert(quoted.contains(quoted[i]));
        }
        lemma_quoted_scan(fragment, front);
        let all = fragment.push('"') + quoted;
        assert(all.drop_last() =~= fragment.push('"') + front);
        assert(quoted.contains(quoted[quoted.len() - 1]));
        assert(all.last() == quoted.last());
    }
}

/// Arguments that are JSON are taken as they are; others are repaired for
/// `restricted_exec` and refused for every other tool.
pub proof fn law_proper_arguments_are_kept(name: Seq<char>, raw: Seq<char>)
    ensures
        json::json_parse(raw) matches Some(tree) ==> args_of(name, raw) == Some(tree),
        json::json_parse(raw) is None && name != "restricted_exec"@ ==> args_of(name, raw) is None,
{
}

/// A text with closing braces behind it.
pub open spec fn with_braces(content: Seq<char>, n: nat) -> Seq<char> {
    content + Seq::new(n, |i: int| '}')
}

/// A repair takes away up to four closing braces that are too many, and gives the object
/// that is left.
pub proof fn law_extra_braces_are_taken_away(content: Seq<char>, n: nat, tree: Tree, tries: nat)
    requires
        n < tries,
        tree is Object,
        json::json_parse(content) == Some(tree),
        forall|k: nat|
            0 < k <= n ==> json::json_parse(#[trigger] with_braces(content, k)) is None && (
            completed(with_braces(content, k)) matches Some(full) ==> json::json_parse(full)
                is None),
    ensures
        repaired_object(with_braces(content, n), tries) == Some(tree),
    decreases n,
{
    let shown = with_braces(content, n);
    if n == 0 {
        assert(shown =~= content);
    } else {
        assert(shown.last() == '}');
        assert(!text::is_space('}'));
        assert(text::trimmed_end(shown) == shown);
        assert(shown.drop_last() =~= with_braces(content, (n - 1) as nat));
        law_extra_braces_are_taken_away(content, (n - 1) as nat, tree, (tries - 1) as nat);
    }
}

/// A fragment that is an object, but for white space and commas around it, is that object;
/// one that lacks nothing but what closes it is the object that it becomes.
pub proof fn law_fragments_are_repaired(fragment: Seq<char>, tree: Tree)
    requires
        without_commas(text::trimmed(fragment)).len() > 0,
        tree is Object,
        ({
            let candidate = without_commas(text::trimmed(fragment));
            json::json_parse(candidate) == Some(tree) || json::json_parse(candidate) is None && (
            completed(candidate) matches Some(full) && json::json_parse(full) == Some(tree))
        }),
    ensures
        repaired_fragment(fragment) == Some(tree),
{
}

/// A fragment with up to four closing braces too many is repaired.
pub proof fn law_fragments_with_extra_braces_are_repaired(content: Seq<char>, n: nat, tree: Tree, fragment: Seq<char>)
    requires
        content.len() > 0,
        n <= 4,
        tree is Object,
        without_commas(text::trimmed(fragment)) == with_braces(content, n),
        json::json_parse(content) == Some(tree),
        forall|k: nat|
            0 < k <= n ==> json::json_parse(#[trigger] with_braces(content, k)) is None && (
            completed(with_braces(content, k)) matches Some(full) ==> json::json_parse(full)
                is None),
    ensures
        repaired_fragment(fragment) == Some(tree),
{
    law_extra_braces_are_taken_away(content, n, tree, 5);
}

/// Each command among arguments that are no JSON is repaired by itself, from behind its
/// key up to the next key, and stands under its key.
pub proof fn law_commands_are_repaired_one_by_one(
    raw: Seq<char>,
    keys: Seq<(Seq<char>, int, int)>,
    i: int,
    value: Tree,
)
    requires
        0 <= i < keys.len(),
        forall|j: int| 0 <= j < keys.len() && j != i ==> (#[trigger] keys[j]).0 != keys[i].0,
        repaired_fragment(
            patterns::byte_slice(
                raw,
                keys[i].2,
                if i + 1 < keys.len() {
                    keys[i + 1].1
                } else {
                    encode_utf8(raw).len() as int
                },
            ),
        ) == Some(value),
    ensures
        Tree::Object(repaired_entries(raw, keys, keys.len() as int)).get(keys[i].0) == Some(value),
{
    lemma_repaired_entry(raw, keys, i, keys.len() as int);
}

/// A repaired command stays under its key while others are added.
proof fn lemma_repaired_entry(raw: Seq<char>, keys: Seq<(Seq<char>, int, int)>, i: int, n: int)
    requires
        0 <= i < n <= keys.len(),
        forall|j: int| 0 <= j < keys.len() && j != i ==> (#[trigger] keys[j]).0 != keys[i].0,
        repaired_fragment(patterns::byte_slice(raw, keys[i].2, value_end(raw, keys, i))) is Some,
    ensures
        json::lookup(repaired_entries(raw, keys, n), keys[i].0) == repaired_fragment(
            patterns::byte_slice(raw, keys[i].2, value_end(raw, keys, i)),
        ),
    decreases n,
{
    let before = repaired_entries(raw, keys, n - 1);
    if i < n - 1 {
        lemma_repaired_entry(raw, keys, i, n - 1);
        assert(keys[n - 1].0 != keys[i].0);
    }
    if let Some(value) = repaired_fragment(
        patterns::byte_slice(raw, keys[n - 1].2, value_end(raw, keys, n - 1)),
    ) {
        json::law_insert_then_lookup(before, keys[n - 1].0, value, keys[i].0);
    }
}

/// The keys of commands are found in all matches, in order, each with the place of its
/// match.
pub proof fn law_keys_are_read_from_all_matches(
    raw: Seq<char>,
    spans: Seq<Seq<Option<(int, int)>>>,
    wholes: Seq<(int, int)>,
    keys: Seq<(int, int)>,
)
    requires
        wholes.len() == spans.len(),
        keys.len() == spans.len(),
        forall|i: int|
            0 <= i < spans.len() ==> (#[trigger] spans[i]).len() == 2 && spans[i][0] == Some(
                wholes[i],
            ) && spans[i][1] == Some(keys[i]),
    ensures
        key_spans(raw, spans).len() == spans.len(),
        forall|i: int|
            0 <= i < spans.len() ==> #[trigger] key_spans(raw, spans)[i] == (
                vstd::utf8::decode_utf8(encode_utf8(raw).subrange(keys[i].0, keys[i].1)),
                wholes[i].0,
                wholes[i].1,
            ),
    decreases spans.len(),
{
    if spans.len() > 0 {
        let front = spans.drop_last();
        let n = spans.len() - 1;
        assert forall|i: int| 0 <= i < front.len() implies (#[trigger] front[i]).len() == 2
            && front[i][0] == Some(wholes.drop_last()[i]) && front[i][1] == Some(
            keys.drop_last()[i],
        ) by {
            assert(front[i] == spans[i]);
        }
        law_keys_are_read_from_all_matches(raw, front, wholes.drop_last(), keys.drop_last());
        assert(spans[n].len() == 2);
        assert(spans.last() == spans[n]);
        let before = key_spans(raw, front);
        let all = key_spans(raw, spans);
        assert forall|i: int| 0 <= i < spans.len() implies #[trigger] all[i] == (
            vstd::utf8::decode_utf8(encode_utf8(raw).subrange(keys[i].0, keys[i].1)),
            wholes[i].0,
            wholes[i].1,
        ) by {
            if i < n {
                assert(all[i] == before[i]);
                assert(keys.drop_last()[i] == keys[i]);
                assert(wholes.drop_last()[i] == wholes[i]);
            }
        }
    }
}

} // verus!
