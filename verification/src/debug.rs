//! What a debug log shows of a search.
use crate::json;
use crate::output;
use crate::protobuf;
use crate::response::{self, Call, ParsedModelTurn, ParsedToolCall, Turn};
use crate::text;
use vstd::prelude::*;
use vstd::utf8::encode_utf8;

verus! {

/// How many characters of a value a debug log shows.
pub const DEBUG_PREVIEW_CHARS: usize = 4_000;

/// Whether a setting is switched on.
pub open spec fn is_on(value: Seq<char>) -> bool {
    let word = text::ascii_lowered(text::trimmed(value));
    word == "1"@ || word == "true"@ || word == "yes"@ || word == "on"@
}

/// Whether a setting is switched on.
pub fn matches_bool_env(value: &str) -> (r: bool)
    ensures
        r == is_on(value@),
{
    let trimmed = text::trim(value);
    let word = text::to_ascii_lower(&trimmed);
    text::same(&word, "1") || text::same(&word, "true") || text::same(&word, "yes") || text::same(
        &word,
        "on",
    )
}

/// A value on one line, with its control characters escaped, cut off behind
/// `max_chars` characters.
pub open spec fn preview(value: Seq<char>, max_chars: nat) -> Seq<char> {
    let escaped = text::replaced(
        text::replaced(
            text::replaced(text::replaced(value, "\\"@, "\\\\"@), "\n"@, "\\n"@),
            "\r"@,
            "\\r"@,
        ),
        "\t"@,
        "\\t"@,
    );
    if escaped.len() > max_chars {
        escaped.take(max_chars as int) + "..."@
    } else {
        escaped
    }
}

/// A value on one line, with its control characters escaped, cut off behind
/// `max_chars` characters.
pub fn debug_preview(value: &str, max_chars: usize) -> (r: String)
    ensures
        r@ == preview(value@, max_chars as nat),
{
    proof {
        reveal_strlit("\\");
        reveal_strlit("\n");
        reveal_strlit("\r");
        reveal_strlit("\t");
    }
    let slashes = text::replace(value, "\\", "\\\\");
    let lines = text::replace(&slashes, "\n", "\\n");
    let carriage = text::replace(&lines, "\r", "\\r");
    let escaped = text::replace(&carriage, "\t", "\\t");
    let chars = text::chars_of(&escaped);
    if chars.len() > max_chars {
        let mut out = text::from_range(&chars, 0, max_chars);
        assert(out@ =~= escaped@.take(max_chars as int));
        out.append("...");
        return out;
    }
    escaped
}

/// A preview is never longer than it may be by more than the dots.
pub proof fn law_preview_is_short(value: Seq<char>, max_chars: nat)
    ensures
        preview(value, max_chars).len() <= max_chars + 3,
{
    reveal_strlit("...");
}

/// The texts that a frame shows: those of its fields, and the frame itself
/// where it is longer than ten bytes and none of them.
pub open spec fn frame_values(frame: Seq<u8>) -> Seq<Seq<char>> {
    let values = protobuf::extracted(frame);
    let raw = response::frame_text(frame);
    if encode_utf8(raw).len() > 10 && !values.contains(raw) {
        values.push(raw)
    } else {
        values
    }
}

/// The previews of the values that show more than white space.
pub open spec fn previews(values: Seq<Seq<char>>) -> Seq<Seq<char>>
    decreases values.len(),
{
    if values.len() == 0 {
        seq![]
    } else {
        let before = previews(values.drop_last());
        let shown = preview(values.last(), 4_000);
        if text::trimmed(shown).len() > 0 {
            before.push(shown)
        } else {
            before
        }
    }
}

/// The texts that frames show.
pub open spec fn frames_previews(frames: Seq<Seq<u8>>) -> Seq<Seq<char>>
    decreases frames.len(),
{
    if frames.len() == 0 {
        seq![]
    } else {
        frames_previews(frames.drop_last()) + previews(frame_values(frames.last()))
    }
}

/// The texts that a frame shows.
fn values_of_frame(frame: &Vec<u8>) -> (r: Vec<String>)
    ensures
        text::views(r@) == frame_values(frame@),
{
    let mut values = protobuf::extract_strings(frame);
    let shown = text::show_bytes(frame);
    proof {
        reveal_strlit("\u{fffd}");
        reveal_strlit("");
        assert("\u{fffd}"@ =~= seq!['\u{fffd}']);
        assert(""@ =~= seq![]);
    }
    let raw = text::replace(&shown, "\u{fffd}", "");
    if text::byte_len(&raw) > 10 && !output::holds(&values, &raw) {
        let ghost before = text::views(values@);
        let ghost added = raw@;
        values.push(raw);
        assert(text::views(values@) =~= before.push(added));
    }
    values
}

/// Adds the previews of the values that show more than white space.
fn append_previews(out: &mut Vec<String>, values: &Vec<String>)
    ensures
        text::views(final(out)@) == text::views(old(out)@) + previews(text::views(values@)),
{
    let ghost start = text::views(out@);
    let ghost all = text::views(values@);
    let mut i: usize = 0;
    assert(all.take(0) =~= seq![]);
    assert(text::views(out@) =~= start + previews(all.take(0)));
    while i < values.len()
        invariant
            i <= values@.len(),
            all == text::views(values@),
            text::views(out@) == start + previews(all.take(i as int)),
        decreases values@.len() - i,
    {
        let ghost before = text::views(out@);
        proof {
            assert(all.take(i + 1).drop_last() =~= all.take(i as int));
            assert(all.take(i + 1).last() == values@[i as int]@);
        }
        let shown = debug_preview(&values[i], DEBUG_PREVIEW_CHARS);
        let trimmed = text::trim(&shown);
        if !trimmed.as_str().is_empty() {
            let ghost added = shown@;
            out.push(shown);
            assert(text::views(out@) =~= before.push(added));
        }
        i += 1;
        assert(text::views(out@) =~= start + previews(all.take(i as int)));
    }
    assert(all.take(i as int) =~= all);
}

/// The texts that a response shows.
pub fn debug_response_strings(response: &[u8]) -> (r: Vec<String>)
    ensures
        text::views(r@) == frames_previews(protobuf::frame_messages(response@)),
{
    let frames = protobuf::connect_frame_decode(response);
    let ghost all = protobuf::buffers(frames@);
    let mut out: Vec<String> = Vec::new();
    let mut i: usize = 0;
    assert(all.take(0) =~= seq![]);
    assert(text::views(out@) =~= seq![]);
    while i < frames.len()
        invariant
            i <= frames@.len(),
            all == protobuf::buffers(frames@),
            text::views(out@) == frames_previews(all.take(i as int)),
        decreases frames@.len() - i,
    {
        proof {
            assert(all.take(i + 1).drop_last() =~= all.take(i as int));
            assert(all.take(i + 1).last() == frames@[i as int]@);
        }
        let values = values_of_frame(&frames[i]);
        append_previews(&mut out, &values);
        i += 1;
    }
    assert(all.take(i as int) =~= all);
    out
}

/// What is shown of a tool call.
pub open spec fn call_summary(call: Call) -> Seq<char> {
    preview(call.name, 128) + " args="@ + preview(json::json_print(call.args), 4_000)
}

/// What is shown of a turn of the model.
pub open spec fn turn_summary(turn: Turn) -> Seq<char> {
    match turn {
        Turn::ToolCalls { thinking, calls } => "tool_calls count="@ + text::decimal(calls.len())
            + " thinking="@ + preview(thinking, 4_000) + " calls=["@ + text::joined(
            Seq::new(calls.len(), |i: int| call_summary(calls[i])),
            "; "@,
        ) + "]"@,
        Turn::Text(content) => "text value="@ + preview(content, 4_000),
        Turn::Error(message) => "error value="@ + preview(message, 4_000),
    }
}

/// What is shown of tool calls.
fn summarize_calls(calls: &Vec<ParsedToolCall>) -> (r: String)
    requires
        response::proper_calls(response::calls_view(calls@)),
    ensures
        r@ == text::joined(
            Seq::new(calls@.len(), |i: int| call_summary(response::calls_view(calls@)[i])),
            "; "@,
        ),
{
    let ghost shown = response::calls_view(calls@);
    let ghost all = Seq::new(calls@.len(), |i: int| call_summary(shown[i]));
    let mut parts: Vec<String> = Vec::new();
    let mut i: usize = 0;
    assert(text::views(parts@) =~= all.take(0));
    while i < calls.len()
        invariant
            i <= calls@.len(),
            shown == response::calls_view(calls@),
            response::proper_calls(shown),
            all == Seq::new(calls@.len(), |i: int| call_summary(shown[i])),
            text::views(parts@) == all.take(i as int),
        decreases calls@.len() - i,
    {
        let ghost before = text::views(parts@);
        assert(json::proper(shown[i as int].args));
        let printed = json::print(&calls[i].args);
        let args = debug_preview(&printed, DEBUG_PREVIEW_CHARS);
        let mut part = debug_preview(&calls[i].name, 128);
        part.append(" args=");
        part.append(&args);
        assert(part@ == all[i as int]);
        let ghost added = part@;
        parts.push(part);
        assert(text::views(parts@) =~= before.push(added));
        i += 1;
        assert(text::views(parts@) =~= all.take(i as int));
    }
    assert(all.take(i as int) =~= all);
    text::join(&parts, "; ")
}

/// What is shown of a turn of the model.
pub fn debug_parsed_turn_summary(parsed: &ParsedModelTurn) -> (r: String)
    requires
        response::proper_turn(parsed@),
    ensures
        r@ == turn_summary(parsed@),
{
    match parsed {
        ParsedModelTurn::ToolCalls { thinking, calls } => {
            let count = text::decimal_usize(calls.len());
            let thought = debug_preview(thinking, DEBUG_PREVIEW_CHARS);
            let summaries = summarize_calls(calls);
            let mut out = text::copied("tool_calls count=");
            out.append(&count);
            out.append(" thinking=");
            out.append(&thought);
            out.append(" calls=[");
            out.append(&summaries);
            out.append("]");
            out
        },
        ParsedModelTurn::Text(content) => {
            let shown = debug_preview(content, DEBUG_PREVIEW_CHARS);
            let mut out = text::copied("text value=");
            out.append(&shown);
            out
        },
        ParsedModelTurn::Error(message) => {
            let shown = debug_preview(message, DEBUG_PREVIEW_CHARS);
            let mut out = text::copied("error value=");
            out.append(&shown);
            out
        },
    }
}

/// The lines that the log shows of a response.
pub open spec fn response_lines(label: Seq<char>, response: Seq<u8>, turn: Turn) -> Seq<Seq<char>> {
    let strings = frames_previews(protobuf::frame_messages(response));
    let first = "model_response turn="@ + preview(label, 128) + " bytes="@ + text::decimal(
        response.len(),
    ) + " parsed="@ + turn_summary(turn);
    if strings.len() == 0 {
        seq![first]
    } else {
        seq![
            first,
            "model_response_strings turn="@ + preview(label, 128) + " values="@ + preview(
                text::joined(strings, " | "@),
                4_000,
            ),
        ]
    }
}

/// The lines that the log shows of a response and the turn that it spells.
pub fn debug_model_response(turn_label: &str, response: &[u8], parsed: &ParsedModelTurn) -> (r: Vec<
    String,
>)
    requires
        response::proper_turn(parsed@),
    ensures
        text::views(r@) == response_lines(turn_label@, response@, parsed@),
{
    let label = debug_preview(turn_label, 128);
    let count = text::decimal_usize(response.len());
    let summary = debug_parsed_turn_summary(parsed);
    let mut first = text::copied("model_response turn=");
    first.append(&label);
    first.append(" bytes=");
    first.append(&count);
    first.append(" parsed=");
    first.append(&summary);
    let mut out: Vec<String> = Vec::new();
    let ghost first_line = first@;
    out.push(first);
    assert(text::views(out@) =~= seq![first_line]);
    let strings = debug_response_strings(response);
    if strings.len() > 0 {
        let joined = text::join(&strings, " | ");
        let values = debug_preview(&joined, DEBUG_PREVIEW_CHARS);
        let mut second = text::copied("model_response_strings turn=");
        second.append(&label);
        second.append(" values=");
        second.append(&values);
        let ghost second_line = second@;
        out.push(second);
        assert(text::views(out@) =~= seq![first_line, second_line]);
    }
    out
}

/// Where the log says that an answer comes from.
pub open spec fn source_name(turn: Turn) -> Seq<char> {
    if turn is Text {
        "text"@
    } else {
        "tool_call"@
    }
}

/// Where an answer comes from that a turn gives.
pub fn answer_source(parsed: &ParsedModelTurn) -> (r: &'static str)
    ensures
        r@ == source_name(parsed@),
{
    match parsed {
        ParsedModelTurn::Text(_) => "text",
        _ => "tool_call",
    }
}

/// The line that the log shows of a final answer.
pub open spec fn answer_line(source: Seq<char>, answer: Seq<char>, file_count: nat) -> Seq<char> {
    "final_answer source="@ + source + " files="@ + text::decimal(file_count) + " xml="@ + preview(
        answer,
        4_000,
    )
}

/// The line that the log shows of a final answer.
pub fn debug_answer_result(source: &str, answer_xml: &str, file_count: usize) -> (r: String)
    ensures
        r@ == answer_line(source@, answer_xml@, file_count as nat),
{
    let count = text::decimal_usize(file_count);
    let shown = debug_preview(answer_xml, DEBUG_PREVIEW_CHARS);
    let mut out = text::copied("final_answer source=");
    out.append(source);
    out.append(" files=");
    out.append(&count);
    out.append(" xml=");
    out.append(&shown);
    out
}

/// Of the values all that are not blank are shown, in their order.
pub proof fn law_previews_show_every_value(values: Seq<Seq<char>>)
    ensures
        previews(values) == values.map_values(|value: Seq<char>| preview(value, 4_000)).filter(
            |shown: Seq<char>| text::trimmed(shown).len() > 0,
        ),
    decreases values.len(),
{
    reveal(Seq::filter);
    let show = |value: Seq<char>| preview(value, 4_000);
    if values.len() > 0 {
        law_previews_show_every_value(values.drop_last());
        assert(values.map_values(show).drop_last() =~= values.drop_last().map_values(show));
    }
}

/// What is shown of a reply is what is shown of its frames, one after the other.
pub proof fn law_frames_are_shown_one_by_one(before: Seq<Seq<u8>>, behind: Seq<Seq<u8>>)
    ensures
        frames_previews(before + behind) == frames_previews(before) + frames_previews(behind),
    decreases behind.len(),
{
    if behind.len() == 0 {
        assert(before + behind =~= before);
    } else {
        law_frames_are_shown_one_by_one(before, behind.drop_last());
        assert((before + behind).drop_last() =~= before + behind.drop_last());
    }
}

/// Text without a character is not changed by a replacement of it.
proof fn lemma_not_replaced(value: Seq<char>, c: char, to: Seq<char>)
    requires
        !value.contains(c),
    ensures
        text::replaced(value, seq![c], to) == value,
    decreases value.len(),
{
    if value.len() > 0 {
        let rest = value.skip(1);
        assert(value.contains(value[0]));
        if rest.contains(c) {
            let i = choose|i: int| 0 <= i < rest.len() && rest[i] == c;
            assert(value[i + 1] == c);
        }
        lemma_not_replaced(rest, c, to);
        assert(value =~= seq![value[0]] + rest);
        if seq![c].is_prefix_of(value) {
            assert(seq![c][0] == value.subrange(0, 1)[0]);
        }
    }
}

/// Text is shown as it is where nothing in it is to be escaped, and cut where it is too long.
pub proof fn law_plain_text_is_shown_as_it_is(value: Seq<char>, max_chars: nat)
    requires
        !value.contains('\\'),
        !value.contains('\n'),
        !value.contains('\r'),
        !value.contains('\t'),
    ensures
        value.len() <= max_chars ==> preview(value, max_chars) == value,
        value.len() > max_chars ==> preview(value, max_chars) == value.take(max_chars as int)
            + "..."@,
{
    reveal_strlit("\\");
    reveal_strlit("\n");
    reveal_strlit("\r");
    reveal_strlit("\t");
    assert("\\"@ =~= seq!['\\']);
    assert("\n"@ =~= seq!['\n']);
    assert("\r"@ =~= seq!['\r']);
    assert("\t"@ =~= seq!['\t']);
    lemma_not_replaced(value, '\\', "\\\\"@);
    lemma_not_replaced(value, '\n', "\\n"@);
    lemma_not_replaced(value, '\r', "\\r"@);
    lemma_not_replaced(value, '\t', "\\t"@);
}

/// A replacement of a character goes through text piece by piece.
proof fn lemma_replaced_add(a: Seq<char>, b: Seq<char>, c: char, to: Seq<char>)
    ensures
        text::replaced(a + b, seq![c], to) == text::replaced(a, seq![c], to) + text::replaced(
            b,
            seq![c],
            to,
        ),
    decreases a.len(),
{
    let whole = a + b;
    let from = seq![c];
    if a.len() == 0 {
        assert(whole =~= b);
        assert(text::replaced(a, from, to) + text::replaced(b, from, to) =~= text::replaced(
            b,
            from,
            to,
        ));
    } else {
        let rest = a.skip(1);
        lemma_replaced_add(rest, b, c, to);
        assert(whole.skip(1) =~= rest + b);
        assert(whole[0] == a[0]);
        assert(from.is_prefix_of(whole) <==> whole[0] == c) by {
            if whole[0] == c {
                assert(from =~= whole.subrange(0, 1));
            }
            if from.is_prefix_of(whole) {
                assert(from[0] == whole.subrange(0, 1)[0]);
            }
        }
        assert(from.is_prefix_of(a) <==> a[0] == c) by {
            if a[0] == c {
                assert(from =~= a.subrange(0, 1));
            }
            if from.is_prefix_of(a) {
                assert(from[0] == a.subrange(0, 1)[0]);
            }
        }
        if whole[0] == c {
            assert(text::replaced(whole, from, to) =~= to + text::replaced(rest, from, to)
                + text::replaced(b, from, to));
        } else {
            assert(text::replaced(whole, from, to) =~= seq![a[0]] + text::replaced(rest, from, to)
                + text::replaced(b, from, to));
        }
    }
}

/// What is shown of text, where all of it is, is what is shown of its pieces, one after the
/// other.
pub proof fn law_text_is_escaped_piece_by_piece(a: Seq<char>, b: Seq<char>, max_chars: nat)
    requires
        preview(a, max_chars).len() + preview(b, max_chars).len() <= max_chars,
    ensures
        preview(a + b, max_chars) == preview(a, max_chars) + preview(b, max_chars),
{
    reveal_strlit("\\");
    reveal_strlit("\n");
    reveal_strlit("\r");
    reveal_strlit("\t");
    reveal_strlit("...");
    assert("\\"@ =~= seq!['\\']);
    assert("\n"@ =~= seq!['\n']);
    assert("\r"@ =~= seq!['\r']);
    assert("\t"@ =~= seq!['\t']);
    let a1 = text::replaced(a, "\\"@, "\\\\"@);
    let b1 = text::replaced(b, "\\"@, "\\\\"@);
    lemma_replaced_add(a, b, '\\', "\\\\"@);
    let a2 = text::replaced(a1, "\n"@, "\\n"@);
    let b2 = text::replaced(b1, "\n"@, "\\n"@);
    lemma_replaced_add(a1, b1, '\n', "\\n"@);
    let a3 = text::replaced(a2, "\r"@, "\\r"@);
    let b3 = text::replaced(b2, "\r"@, "\\r"@);
    lemma_replaced_add(a2, b2, '\r', "\\r"@);
    lemma_replaced_add(a3, b3, '\t', "\\t"@);
}

/// A character that would break the line, or that marks one that does, is shown by two.
pub proof fn law_line_breaks_are_escaped(max_chars: nat)
    requires
        max_chars >= 2,
    ensures
        preview(seq!['\n'], max_chars) == seq!['\\', 'n'],
        preview(seq!['\r'], max_chars) == seq!['\\', 'r'],
        preview(seq!['\t'], max_chars) == seq!['\\', 't'],
        preview(seq!['\\'], max_chars) == seq!['\\', '\\'],
{
    reveal_strlit("\\");
    reveal_strlit("\n");
    reveal_strlit("\r");
    reveal_strlit("\t");
    reveal_strlit("\\\\");
    reveal_strlit("\\n");
    reveal_strlit("\\r");
    reveal_strlit("\\t");
    assert("\\"@ =~= seq!['\\']);
    assert("\n"@ =~= seq!['\n']);
    assert("\r"@ =~= seq!['\r']);
    assert("\t"@ =~= seq!['\t']);
    assert("\\\\"@ =~= seq!['\\', '\\']);
    assert("\\n"@ =~= seq!['\\', 'n']);
    assert("\\r"@ =~= seq!['\\', 'r']);
    assert("\\t"@ =~= seq!['\\', 't']);
    lemma_one_replaced('\\', "\\\\"@);
    lemma_one_replaced('\n', "\\n"@);
    lemma_one_replaced('\r', "\\r"@);
    lemma_one_replaced('\t', "\\t"@);
    let slashes = seq!['\\', '\\'];
    lemma_not_replaced(slashes, '\n', "\\n"@);
    lemma_not_replaced(slashes, '\r', "\\r"@);
    lemma_not_replaced(slashes, '\t', "\\t"@);
    lemma_not_replaced(seq!['\n'], '\\', "\\\\"@);
    lemma_not_replaced("\\n"@, '\r', "\\r"@);
    lemma_not_replaced("\\n"@, '\t', "\\t"@);
    lemma_not_replaced(seq!['\r'], '\\', "\\\\"@);
    lemma_not_replaced(seq!['\r'], '\n', "\\n"@);
    lemma_not_replaced("\\r"@, '\t', "\\t"@);
    lemma_not_replaced(seq!['\t'], '\\', "\\\\"@);
    lemma_not_replaced(seq!['\t'], '\n', "\\n"@);
    lemma_not_replaced(seq!['\t'], '\r', "\\r"@);
}

/// A text of one character is replaced whole.
proof fn lemma_one_replaced(c: char, to: Seq<char>)
    ensures
        text::replaced(seq![c], seq![c], to) == to,
{
    let one = seq![c];
    assert(one.is_prefix_of(one)) by {
        assert(one =~= one.subrange(0, 1));
    }
    let rest = one.skip(1);
    assert(rest.len() == 0);
    assert(text::replaced(rest, one, to) == rest);
    assert(to + rest =~= to);
}

/// The log of a reply tells the turn, the size of the reply and what was made of it; what the
/// reply says is told where there is anything to show.
pub proof fn law_log_tells_of_the_reply(label: Seq<char>, response: Seq<u8>, turn: Turn)
    ensures
        ({
            let lines = response_lines(label, response, turn);
            let strings = frames_previews(protobuf::frame_messages(response));
            &&& lines.len() == if strings.len() == 0 {
                1nat
            } else {
                2nat
            }
            &&& lines[0] == "model_response turn="@ + preview(label, 128) + " bytes="@
                + text::decimal(response.len()) + " parsed="@ + turn_summary(turn)
            &&& strings.len() == 1 ==> lines[1] == "model_response_strings turn="@ + preview(
                label,
                128,
            ) + " values="@ + preview(strings[0], 4_000)
        }),
{
    let strings = frames_previews(protobuf::frame_messages(response));
    if strings.len() == 1 {
        assert(text::joined(strings, " | "@) =~= strings[0]);
    }
}

} // verus!
