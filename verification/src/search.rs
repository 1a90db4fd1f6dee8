//! A search as a conversation with the model. The session says what to do
//! next, and is told what came of it.
use crate::answer::{self, AnswerFile, FileProbe, Mention, Probe};
use crate::commands;
use crate::error::{FastContextError, Fault};
use crate::http;
use crate::json::{self, Json, Tree};
use crate::output;
use crate::protocol::{self, ChatMessage, ClientInfo, Message, MessageRole, FINAL_FORCE_ANSWER};
use crate::repo::{RepoMap, Snapshot};
use crate::response::{self, Call, ParsedModelTurn, ParsedToolCall, Turn};
use crate::text;
use crate::tool_schema;
use crate::tools::{self, Command, InstantContextToolCall, InstantContextToolUpdate, Update};
use crate::turns;
use crate::types::{
    self, Failure, Found, Meta, Outcome, SearchError, SearchMeta, SearchOptions, SearchResult,
};
use vstd::prelude::*;

verus! {

/// The patterns, each once, where it first stands.
pub open spec fn distinct(patterns: Seq<Seq<char>>) -> Seq<Seq<char>>
    decreases patterns.len(),
{
    if patterns.len() == 0 {
        seq![]
    } else {
        let before = distinct(patterns.drop_last());
        if before.contains(patterns.last()) {
            before
        } else {
            before.push(patterns.last())
        }
    }
}

/// The patterns, each once, where it first stands.
pub fn unique_patterns(patterns: &Vec<String>) -> (r: Vec<String>)
    ensures
        text::views(r@) == distinct(text::views(patterns@)),
{
    let ghost all = text::views(patterns@);
    let mut out: Vec<String> = Vec::new();
    let mut i: usize = 0;
    assert(all.take(0) =~= seq![]);
    assert(text::views(out@) =~= seq![]);
    while i < patterns.len()
        invariant
            i <= patterns@.len(),
            all == text::views(patterns@),
            text::views(out@) == distinct(all.take(i as int)),
        decreases patterns@.len() - i,
    {
        let ghost before = text::views(out@);
        proof {
            assert(all.take(i + 1).drop_last() =~= all.take(i as int));
            assert(all.take(i + 1).last() == patterns@[i as int]@);
        }
        if !output::holds(&out, &patterns[i]) {
            out.push(patterns[i].clone());
            assert(text::views(out@) =~= before.push(patterns@[i as int]@));
        }
        i += 1;
    }
    assert(all.take(i as int) =~= all);
    out
}

/// No pattern is reported twice, and every one that was searched for is reported.
pub proof fn law_patterns_are_reported_once(patterns: Seq<Seq<char>>)
    ensures
        distinct(patterns).no_duplicates(),
        forall|pattern: Seq<char>|
            distinct(patterns).contains(pattern) <==> #[trigger] patterns.contains(pattern),
    decreases patterns.len(),
{
    if patterns.len() > 0 {
        let rest = patterns.drop_last();
        law_patterns_are_reported_once(rest);
        let before = distinct(rest);
        let all = distinct(patterns);
        assert forall|pattern: Seq<char>| all.contains(pattern) <==> #[trigger] patterns.contains(
            pattern,
        ) by {
            if patterns.contains(pattern) {
                let k = choose|k: int| 0 <= k < patterns.len() && patterns[k] == pattern;
                if k < rest.len() {
                    assert(rest[k] == pattern);
                    assert(rest.contains(pattern));
                    let j = choose|j: int| 0 <= j < before.len() && before[j] == pattern;
                    assert(all[j] == pattern);
                } else if !before.contains(pattern) {
                    assert(all[before.len() as int] == pattern);
                } else {
                    let j = choose|j: int| 0 <= j < before.len() && before[j] == pattern;
                    assert(all[j] == pattern);
                }
            }
            if all.contains(pattern) {
                let j = choose|j: int| 0 <= j < all.len() && all[j] == pattern;
                if j < before.len() {
                    assert(before.contains(before[j]));
                    assert(rest.contains(pattern));
                    let k = choose|k: int| 0 <= k < rest.len() && rest[k] == pattern;
                    assert(patterns[k] == pattern);
                } else {
                    assert(patterns[patterns.len() - 1] == pattern);
                }
            }
        }
    }
}

/// What a search waits for: the model's reply to a question, its reply after
/// the conversation was cut down or after an empty reply, the results of a step,
/// what is there of the files of an answer, or nothing more.
#[verifier::ext_equal]
pub enum Stage {
    Asking,
    Trimmed,
    EmptyRetry,
    Executing { thinking: Seq<char>, call: Call },
    Answering(Seq<char>),
    Finished,
}

/// Where a search has come.
#[verifier::ext_equal]
pub struct Session {
    pub project_root: Seq<char>,
    pub api_key: Seq<char>,
    pub jwt: Seq<char>,
    pub client: ClientInfo,
    pub tool_defs: Seq<char>,
    pub max_turns: usize,
    pub max_commands: usize,
    pub max_results: usize,
    pub timeout_ms: u64,
    pub map: Snapshot,
    pub messages: Seq<Message>,
    pub forced: bool,
    pub compensated: usize,
    pub turn: usize,
    pub stage: Stage,
}

/// What is to be done next: to send a request, to run the commands of a step,
/// to look at files, or to report the outcome.
#[verifier::ext_equal]
pub enum Act {
    Request(Seq<u8>),
    Execute { step_id: Seq<char>, calls: Seq<Command>, budget_ms: u128 },
    Inspect(Seq<Seq<char>>),
    Finish(Outcome),
}

/// What a search makes of an event: where it has come, what is shown, and what
/// is to be done next.
#[verifier::ext_equal]
pub struct Reaction {
    pub session: Session,
    pub logs: Seq<Seq<char>>,
    pub act: Act,
}

/// The request that carries the conversation.
pub open spec fn request_of(s: Session) -> Seq<u8> {
    protocol::request_bytes(s.api_key, s.jwt, s.messages, s.tool_defs, s.client)
}

/// The end of a search.
pub open spec fn finish(s: Session, logs: Seq<Seq<char>>, outcome: Outcome) -> Reaction {
    Reaction { session: Session { stage: Stage::Finished, ..s }, logs, act: Act::Finish(outcome) }
}

/// The outcome of a search that failed.
pub open spec fn failed(s: Session, code: Seq<char>, message: Seq<char>) -> Outcome {
    Outcome {
        error: Some(Failure { code, message }),
        meta: turns::meta_of(s.project_root, s.map, Some(code)),
        ..types::no_outcome()
    }
}

/// The start of the next turn, or the end where no turn is left.
pub open spec fn next_turn(s: Session, logs: Seq<Seq<char>>, patterns: Seq<Seq<char>>) -> Reaction {
    if s.turn < s.max_turns + 1 + s.compensated {
        Reaction {
            session: Session { stage: Stage::Asking, ..s },
            logs: logs.push(
                turns::progress_line(
                    s.turn as nat,
                    s.compensated as nat,
                    s.max_turns as nat,
                    s.forced,
                ),
            ),
            act: Act::Request(request_of(s)),
        }
    } else {
        finish(
            s,
            logs,
            Outcome {
                rg_patterns: distinct(patterns),
                ..failed(
                    s,
                    "MAX_TURNS_REACHED"@,
                    "Max turns reached without getting an answer"@,
                )
            },
        )
    }
}

/// The session with its turn over.
pub open spec fn turn_over(s: Session) -> Session {
    Session { turn: (s.turn + 1) as usize, ..s }
}

/// The number of turns that count when the turn of the session ends.
pub open spec fn used(s: Session) -> nat {
    turns::turns_used(s.turn as nat, s.compensated as nat, s.max_turns as nat)
}

/// The message that tells the model how many turns are left.
pub open spec fn status_message(s: Session) -> Message {
    protocol::simple_message(MessageRole::User, turns::turn_status(used(s), s.max_turns as nat))
}

/// The message that asks the model for its answer.
pub open spec fn force_message() -> Message {
    protocol::simple_message(MessageRole::User, FINAL_FORCE_ANSWER@)
}

/// The paths that an answer names within the project.
pub open spec fn mention_paths(named: Seq<Mention>) -> Seq<Seq<char>> {
    Seq::new(named.len(), |i: int| named[i].path)
}

/// A look at the files that an answer names.
pub open spec fn inspect(s: Session, content: Seq<char>) -> Reaction {
    Reaction {
        session: Session { stage: Stage::Answering(content), ..s },
        logs: seq!["Received final answer"@],
        act: Act::Inspect(mention_paths(answer::mentions(protocol::is_windows(s.client), content))),
    }
}

/// The first call of a tool.
pub open spec fn call_of(calls: Seq<Call>, name: Seq<char>) -> Option<Call>
    decreases calls.len(),
{
    if calls.len() == 0 {
        None
    } else if calls[0].name == name {
        Some(calls[0])
    } else {
        call_of(calls.skip(1), name)
    }
}

/// The call that is carried out: that of `restricted_exec`, or else the first.
pub open spec fn chosen_call(calls: Seq<Call>) -> Option<Call> {
    match call_of(calls, "restricted_exec"@) {
        Some(call) => Some(call),
        None => if calls.len() > 0 {
            Some(calls[0])
        } else {
            None
        },
    }
}

/// The answer that a call gives.
pub open spec fn answer_text(call: Call) -> Seq<char> {
    match json::text_at(call.args, "answer"@) {
        Some(content) => content,
        None => ""@,
    }
}

/// The time that the commands of a step may take.
pub open spec fn step_budget(timeout_ms: u64) -> u128 {
    if timeout_ms / 2 < 1_000 {
        1_000
    } else {
        (timeout_ms / 2) as u128
    }
}

/// The command that a call of a tool that is none becomes.
pub open spec fn foreign_command(call: Call) -> Command {
    Command {
        id: "command1"@,
        name: "command1"@,
        args: Tree::Object(
            json::object_of(seq![("type"@, Tree::Text(call.name)), ("arguments"@, call.args)]),
        ),
    }
}

/// Whether a call of `restricted_exec` gives a command.
pub open spec fn gives_command(s: Session, call: Call) -> bool {
    commands::any_typed(
        call.args,
        protocol::command_limit(s.max_commands as int) as nat,
    )
}

/// What is shown of a call: of one of `restricted_exec` without a command, that
/// a turn is made up for, or that none is left to make up for it.
pub open spec fn call_logs(s: Session, call: Call) -> Seq<Seq<char>> {
    if call.name != "restricted_exec"@ || gives_command(s, call) {
        seq![]
    } else if s.compensated < 2 {
        seq![
            "No valid restricted_exec commands; scheduling compensation turn "@ + text::decimal(
                (s.compensated + 1) as nat,
            ) + "/2"@,
        ]
    } else {
        seq!["Turn compensation skipped: max compensations (2) reached"@]
    }
}

/// The name of the step that carries out a call.
pub open spec fn step_name(s: Session, call: Call) -> Seq<char> {
    (if call.name == "restricted_exec"@ {
        "restricted-exec-"@
    } else {
        "unsupported-tool-"@
    }) + text::decimal((s.turn + 1) as nat)
}

/// The commands of the step that carries out a call.
pub open spec fn step_commands(s: Session, call: Call) -> Seq<Command> {
    if call.name == "restricted_exec"@ {
        commands::commands_of(call.args, s.max_commands as nat)
    } else {
        seq![foreign_command(call)]
    }
}

/// The step that carries out a call.
pub open spec fn execute(s: Session, thinking: Seq<char>, call: Call) -> Reaction {
    let calls = step_commands(s, call);
    Reaction {
        session: Session {
            compensated: if call.name == "restricted_exec"@ && !gives_command(s, call)
                && s.compensated < 2 {
                (s.compensated + 1) as usize
            } else {
                s.compensated
            },
            stage: Stage::Executing { thinking, call },
            ..s
        },
        logs: call_logs(s, call).push(
            "Executing "@ + text::decimal(calls.len()) + " restricted_exec commands"@,
        ),
        act: Act::Execute {
            step_id: step_name(s, call),
            calls,
            budget_ms: step_budget(s.timeout_ms),
        },
    }
}

/// What a search makes of a text without an answer: as long as the model was
/// not asked for its answer the conversation goes on.
pub open spec fn after_text(s: Session, content: Seq<char>, patterns: Seq<Seq<char>>) -> Reaction {
    let said = s.messages.push(protocol::simple_message(MessageRole::Assistant, content));
    if s.forced {
        finish(
            s,
            seq![],
            Outcome {
                rg_patterns: distinct(patterns),
                raw_response: Some(content),
                meta: turns::meta_of(s.project_root, s.map, None),
                ..types::no_outcome()
            },
        )
    } else if used(s) < s.max_turns {
        next_turn(
            turn_over(Session { messages: said.push(status_message(s)), ..s }),
            seq!["Plain-text response without answer; continuing search"@],
            patterns,
        )
    } else {
        next_turn(
            turn_over(Session { messages: said.push(force_message()), forced: true, ..s }),
            seq!["Injected force-answer prompt after plain-text response"@],
            patterns,
        )
    }
}

/// What a search makes of a turn of the model.
pub open spec fn after_turn(s: Session, turn: Turn, patterns: Seq<Seq<char>>) -> Reaction {
    match turn {
        Turn::Error(message) => finish(s, seq![], failed(s, "MODEL_ERROR"@, message)),
        Turn::Text(content) => if text::contains(content, "<ANSWER"@) {
            inspect(s, content)
        } else {
            after_text(s, content, patterns)
        },
        Turn::ToolCalls { thinking, calls } => match call_of(calls, "answer"@) {
            Some(call) => inspect(s, answer_text(call)),
            None => match chosen_call(calls) {
                Some(call) => execute(s, thinking, call),
                None => next_turn(turn_over(s), seq![], patterns),
            },
        },
    }
}

/// Whether a turn says nothing.
pub open spec fn is_blank(turn: Turn) -> bool {
    match turn {
        Turn::Text(content) => text::trimmed(content).len() == 0,
        _ => false,
    }
}

/// What a search makes of a turn of the model that may say nothing: it asks
/// once more, and gives up at the second time.
pub open spec fn after_model(s: Session, turn: Turn, patterns: Seq<Seq<char>>) -> Reaction {
    if !is_blank(turn) {
        after_turn(s, turn, patterns)
    } else if s.stage is EmptyRetry {
        finish(s, seq![], failed(s, "MODEL_EMPTY_RESPONSE"@, "Model returned empty response"@))
    } else {
        Reaction {
            session: Session { stage: Stage::EmptyRetry, ..s },
            logs: seq!["Empty model response on turn; retrying once..."@],
            act: Act::Request(request_of(s)),
        }
    }
}

/// Whether a request that failed may succeed with a shorter conversation.
pub open spec fn may_shrink(s: Session, fault: Fault) -> bool {
    (fault.code == "PAYLOAD_TOO_LARGE"@ || fault.code == "TIMEOUT"@) && s.messages.len() > 4
}

/// What a search makes of a request that failed: a long conversation is cut
/// down once for another try.
pub open spec fn after_fault(s: Session, fault: Fault) -> Reaction {
    if s.stage is Trimmed {
        finish(
            s,
            seq![],
            Outcome {
                meta: Meta {
                    context_trimmed: Some(true),
                    ..turns::meta_of(s.project_root, s.map, Some(fault.code))
                },
                ..failed(s, fault.code, fault.message + " (retry failure)"@)
            },
        )
    } else if s.stage is Asking && may_shrink(s, fault) {
        let cut = Session {
            messages: protocol::trimmed_messages(s.messages),
            stage: Stage::Trimmed,
            ..s
        };
        Reaction {
            session: cut,
            logs: seq![
                fault.code + " on "@ + turns::turn_ref(
                    s.turn as nat,
                    s.compensated as nat,
                    s.max_turns as nat,
                ) + ": trimming context and retrying..."@,
            ],
            act: Act::Request(request_of(cut)),
        }
    } else {
        finish(s, seq![], failed(s, fault.code, fault.message))
    }
}

/// The message that repeats a call of the model.
pub open spec fn call_message(thinking: Seq<char>, call: Call) -> Message {
    Message {
        role: MessageRole::Assistant,
        content: thinking,
        tool_call_id: Some(call.id),
        tool_name: Some(call.name),
        tool_args_json: Some(json::json_print(call.args)),
        ref_call_id: None,
    }
}

/// The message with the results of a call.
pub open spec fn results_message(call: Call, updates: Seq<Update>) -> Message {
    Message {
        role: MessageRole::Tool,
        content: commands::results_text(updates),
        tool_call_id: None,
        tool_name: None,
        tool_args_json: None,
        ref_call_id: Some(call.id),
    }
}

/// What a search makes of the results of a step: it hands them to the model,
/// with the number of turns that are left, or once with the demand for an answer.
pub open spec fn after_updates(
    s: Session,
    thinking: Seq<char>,
    call: Call,
    updates: Seq<Update>,
    patterns: Seq<Seq<char>>,
) -> Reaction {
    let told = s.messages.push(call_message(thinking, call)).push(results_message(call, updates));
    if used(s) < s.max_turns {
        next_turn(
            turn_over(Session { messages: told.push(status_message(s)), ..s }),
            seq![],
            patterns,
        )
    } else if !s.forced {
        next_turn(
            turn_over(Session { messages: told.push(force_message()), forced: true, ..s }),
            seq!["Injected force-answer prompt"@],
            patterns,
        )
    } else {
        next_turn(turn_over(Session { messages: told, ..s }), seq![], patterns)
    }
}

/// The files that are reported, at most `max_results`.
pub open spec fn first_files(files: Seq<Found>, max_results: nat) -> Seq<Found> {
    if files.len() <= max_results {
        files
    } else {
        files.take(max_results as int)
    }
}

/// What a search makes of what is there of the files of an answer.
pub open spec fn after_inspection(
    s: Session,
    content: Seq<char>,
    probes: Seq<Probe>,
    patterns: Seq<Seq<char>>,
) -> Reaction {
    finish(
        s,
        seq![],
        Outcome {
            files: first_files(
                answer::found_files(s.project_root, answer::mentions(protocol::is_windows(s.client), content), probes),
                s.max_results as nat,
            ),
            rg_patterns: distinct(patterns),
            meta: turns::meta_of(s.project_root, s.map, None),
            ..types::no_outcome()
        },
    )
}

/// What holds of a session at any time: there is room for its turns, no more
/// turns are made up for than there were and may be, and once the model was
/// asked for its answer no turn counts as left.
pub open spec fn in_bounds(s: Session) -> bool {
    &&& s.max_turns <= usize::MAX - 4
    &&& s.compensated <= 2
    &&& 1 <= s.max_commands <= 8
    &&& match s.stage {
        Stage::Finished => s.turn <= s.max_turns + 1 + s.compensated,
        Stage::Executing { call, .. } => s.turn < s.max_turns + 1 + s.compensated && json::proper(
            call.args,
        ) && s.compensated <= s.turn + 1 && (s.forced ==> s.turn + 1 >= s.max_turns
            + s.compensated),
        _ => s.turn < s.max_turns + 1 + s.compensated && s.compensated <= s.turn && (s.forced
            ==> s.turn >= s.max_turns + s.compensated),
    }
}

/// How much a search can still go on: the turns that are left, and within a
/// turn the steps.
pub open spec fn remaining(s: Session) -> int {
    (s.max_turns + 3 - s.turn) * 5 + match s.stage {
        Stage::Asking => 4,
        Stage::Trimmed => 3,
        Stage::EmptyRetry => 2,
        Stage::Executing { .. } => 1,
        Stage::Answering(_) => 1,
        Stage::Finished => 0int,
    }
}

/// A new turn is one fewer that is left.
proof fn lemma_next_turn_remaining(s: Session, logs: Seq<Seq<char>>, patterns: Seq<Seq<char>>)
    requires
        s.turn < s.max_turns + 1 + s.compensated,
        s.max_turns <= usize::MAX - 4,
        s.compensated <= 2,
    ensures
        remaining(next_turn(turn_over(s), logs, patterns).session) < (s.max_turns + 3 - s.turn) * 5,
        remaining(next_turn(turn_over(s), logs, patterns).session) >= 0,
{
}

/// Every reaction to a turn of the model brings the search nearer to its end.
pub proof fn law_turns_bring_the_end_nearer(s: Session, turn: Turn, patterns: Seq<Seq<char>>)
    requires
        in_bounds(s),
        s.stage is Asking || s.stage is Trimmed || s.stage is EmptyRetry,
    ensures
        0 <= remaining(after_model(s, turn, patterns).session) < remaining(s),
{
    let said = |content: Seq<char>, m: Message|
        s.messages.push(protocol::simple_message(MessageRole::Assistant, content)).push(m);
    match turn {
        Turn::Text(content) => {
            lemma_next_turn_remaining(
                Session { messages: said(content, status_message(s)), ..s },
                seq!["Plain-text response without answer; continuing search"@],
                patterns,
            );
            lemma_next_turn_remaining(
                Session { messages: said(content, force_message()), forced: true, ..s },
                seq!["Injected force-answer prompt after plain-text response"@],
                patterns,
            );
        },
        Turn::ToolCalls { .. } => {
            lemma_next_turn_remaining(s, seq![], patterns);
        },
        _ => {},
    }
}

/// Every reaction to a failed request brings the search nearer to its end.
pub proof fn law_faults_bring_the_end_nearer(s: Session, fault: Fault)
    requires
        in_bounds(s),
        s.stage is Asking || s.stage is Trimmed || s.stage is EmptyRetry,
    ensures
        0 <= remaining(after_fault(s, fault).session) < remaining(s),
{
}

/// Every reaction to the results of a step brings the search nearer to its end.
pub proof fn law_steps_bring_the_end_nearer(
    s: Session,
    thinking: Seq<char>,
    call: Call,
    updates: Seq<Update>,
    patterns: Seq<Seq<char>>,
)
    requires
        in_bounds(s),
        s.stage == (Stage::Executing { thinking, call }),
    ensures
        0 <= remaining(after_updates(s, thinking, call, updates, patterns).session) < remaining(s),
{
    let told = s.messages.push(call_message(thinking, call)).push(results_message(call, updates));
    lemma_next_turn_remaining(
        Session { messages: told.push(status_message(s)), ..s },
        seq![],
        patterns,
    );
    lemma_next_turn_remaining(
        Session { messages: told.push(force_message()), forced: true, ..s },
        seq!["Injected force-answer prompt"@],
        patterns,
    );
    lemma_next_turn_remaining(Session { messages: told, ..s }, seq![], patterns);
}

/// Once the model was asked for its answer it gets no more than the results of
/// its calls, and a text without an answer ends the search.
pub proof fn law_answer_is_demanded_once(
    s: Session,
    thinking: Seq<char>,
    call: Call,
    updates: Seq<Update>,
    patterns: Seq<Seq<char>>,
    content: Seq<char>,
)
    requires
        in_bounds(s),
        s.forced,
    ensures
        s.stage == (Stage::Executing { thinking, call }) ==> after_updates(
            s,
            thinking,
            call,
            updates,
            patterns,
        ).session.messages == s.messages.push(call_message(thinking, call)).push(
            results_message(call, updates),
        ),
        after_text(s, content, patterns).act is Finish,
        after_text(s, content, patterns).session.messages == s.messages,
{
}

/// A search never reports more files than it may, and none that is not a file
/// of the project with ranges that lie in it.
pub proof fn law_reported_files_are_sound(
    s: Session,
    content: Seq<char>,
    probes: Seq<Probe>,
    patterns: Seq<Seq<char>>,
)
    ensures
        after_inspection(s, content, probes, patterns).act matches Act::Finish(outcome)
            && outcome.files.len() <= s.max_results && forall|i: int|
            0 <= i < outcome.files.len() ==> answer::is_sound(
                s.project_root,
                probes,
                #[trigger] outcome.files[i],
            ),
{
    let all = answer::found_files(s.project_root, answer::mentions(protocol::is_windows(s.client), content), probes);
    answer::law_answer_stays_in_project(s.project_root, answer::mentions(protocol::is_windows(s.client), content), probes);
    let shown = first_files(all, s.max_results as nat);
    assert forall|i: int| 0 <= i < shown.len() implies answer::is_sound(
        s.project_root,
        probes,
        #[trigger] shown[i],
    ) by {
        assert(shown[i] == all[i]);
    }
}

/// What a search waits for.
#[derive(Debug)]
enum Phase {
    Asking,
    Trimmed,
    EmptyRetry,
    Executing { thinking: String, call: ParsedToolCall },
    Answering(String),
    Finished,
}

impl View for Phase {
    type V = Stage;

    closed spec fn view(&self) -> Stage {
        match self {
            Phase::Asking => Stage::Asking,
            Phase::Trimmed => Stage::Trimmed,
            Phase::EmptyRetry => Stage::EmptyRetry,
            Phase::Executing { thinking, call } => Stage::Executing {
                thinking: thinking@,
                call: call@,
            },
            Phase::Answering(content) => Stage::Answering(content@),
            Phase::Finished => Stage::Finished,
        }
    }
}

/// A search that is under way.
#[derive(Debug)]
pub struct SearchSession {
    project_root: String,
    api_key: String,
    jwt: String,
    client: ClientInfo,
    tool_defs: String,
    max_turns: usize,
    max_commands: usize,
    max_results: usize,
    timeout_ms: u64,
    repo_map: RepoMap,
    messages: Vec<ChatMessage>,
    force_answer_injected: bool,
    compensated_turns: usize,
    turn: usize,
    phase: Phase,
}

impl View for SearchSession {
    type V = Session;

    closed spec fn view(&self) -> Session {
        Session {
            project_root: self.project_root@,
            api_key: self.api_key@,
            jwt: self.jwt@,
            client: self.client,
            tool_defs: self.tool_defs@,
            max_turns: self.max_turns,
            max_commands: self.max_commands,
            max_results: self.max_results,
            timeout_ms: self.timeout_ms,
            map: self.repo_map@,
            messages: protocol::messages_view(self.messages@),
            forced: self.force_answer_injected,
            compensated: self.compensated_turns,
            turn: self.turn,
            stage: self.phase@,
        }
    }
}

/// What is to be done next in a search.
#[derive(Debug)]
pub enum SearchAction {
    Request(Vec<u8>),
    Execute {
        step_id: String,
        calls: Vec<InstantContextToolCall>,
        timeout_budget_ms: u128,
    },
    Inspect(Vec<String>),
    Finish(SearchResult),
}

impl View for SearchAction {
    type V = Act;

    open spec fn view(&self) -> Act {
        match self {
            SearchAction::Request(body) => Act::Request(body@),
            SearchAction::Execute { step_id, calls, timeout_budget_ms } => Act::Execute {
                step_id: step_id@,
                calls: tools::commands_view(calls@),
                budget_ms: *timeout_budget_ms,
            },
            SearchAction::Inspect(files) => Act::Inspect(text::views(files@)),
            SearchAction::Finish(result) => Act::Finish(result@),
        }
    }
}

/// What is to be shown, and what is to be done next.
#[derive(Debug)]
pub struct SearchStep {
    pub logs: Vec<String>,
    pub action: SearchAction,
}

/// What a session and its step together say.
pub open spec fn reaction(session: Session, step: SearchStep) -> Reaction {
    Reaction { session, logs: text::views(step.logs@), act: step.action@ }
}

/// Whether a session and its step are what is expected.
pub open spec fn reacts(session: Session, step: SearchStep, expected: Reaction) -> bool {
    reaction(session, step) == expected
}

/// What a search makes of a reply to its request.
pub open spec fn after_reply(
    s: Session,
    reply: Result<Seq<u8>, Fault>,
    patterns: Seq<Seq<char>>,
) -> Reaction {
    match reply {
        Ok(data) => after_model(s, response::response_turn(data), patterns),
        Err(fault) => after_fault(s, fault),
    }
}

/// The lines that warn of filter patterns that could not be used.
pub open spec fn warning_lines(warnings: Seq<Seq<char>>) -> Seq<Seq<char>> {
    Seq::new(warnings.len(), |i: int| "Path filter warning: "@ + warnings[i])
}

/// The session with which a search starts.
pub open spec fn opening(
    options: SearchOptions,
    api_key: Seq<char>,
    jwt: Seq<char>,
    client: ClientInfo,
    map: Snapshot,
) -> Session {
    let max_commands = protocol::command_limit(options.max_commands as int);
    Session {
        project_root: options.project_root@,
        api_key,
        jwt,
        client,
        tool_defs: json::json_print(tool_schema::tools_tree(max_commands)),
        max_turns: options.max_turns,
        max_commands: max_commands as usize,
        max_results: options.max_results,
        timeout_ms: options.timeout_ms,
        map,
        messages: seq![
            protocol::simple_message(
                MessageRole::System,
                protocol::system_prompt(options.max_turns as nat, max_commands),
            ),
            protocol::simple_message(MessageRole::User, turns::user_content(options.query@, map)),
        ],
        forced: false,
        compensated: 0,
        turn: 0,
        stage: Stage::Asking,
    }
}

/// The lines that warn of filter patterns that could not be used.
fn list_warnings(warnings: &Vec<String>) -> (r: Vec<String>)
    ensures
        text::views(r@) == warning_lines(text::views(warnings@)),
{
    let ghost all = warning_lines(text::views(warnings@));
    let mut out: Vec<String> = Vec::new();
    let mut i: usize = 0;
    assert(text::views(out@) =~= all.take(0));
    while i < warnings.len()
        invariant
            i <= warnings@.len(),
            all == warning_lines(text::views(warnings@)),
            text::views(out@) == all.take(i as int),
        decreases warnings@.len() - i,
    {
        let ghost before = text::views(out@);
        let mut line = text::copied("Path filter warning: ");
        line.append(&warnings[i]);
        assert(all[i as int] == line@);
        let ghost added = line@;
        out.push(line);
        assert(text::views(out@) =~= before.push(added));
        i += 1;
        assert(text::views(out@) =~= all.take(i as int));
    }
    assert(all.take(i as int) =~= all);
    out
}

/// A list of one line.
fn one_line(line: &str) -> (r: Vec<String>)
    ensures
        text::views(r@) == seq![line@],
{
    let mut out: Vec<String> = Vec::new();
    out.push(text::copied(line));
    assert(text::views(out@) =~= seq![line@]);
    out
}

/// A list of no lines.
fn no_lines() -> (r: Vec<String>)
    ensures
        text::views(r@) == Seq::<Seq<char>>::empty(),
{
    let out: Vec<String> = Vec::new();
    assert(text::views(out@) =~= seq![]);
    out
}

/// The first call of a tool.
fn find_call<'a>(calls: &'a Vec<ParsedToolCall>, name: &str) -> (r: Option<&'a ParsedToolCall>)
    requires
        response::proper_calls(response::calls_view(calls@)),
    ensures
        match r {
            Some(call) => call_of(response::calls_view(calls@), name@) == Some(call@)
                && json::proper(call@.args),
            None => call_of(response::calls_view(calls@), name@) is None,
        },
{
    let ghost all = response::calls_view(calls@);
    let mut i: usize = 0;
    assert(all.skip(0) =~= all);
    while i < calls.len()
        invariant
            i <= calls@.len(),
            all == response::calls_view(calls@),
            response::proper_calls(all),
            call_of(all.skip(i as int), name@) == call_of(all, name@),
        decreases calls@.len() - i,
    {
        assert(all.skip(i as int)[0] == calls@[i as int]@);
        assert(json::proper(all[i as int].args));
        if text::same(&calls[i].name, name) {
            return Some(&calls[i]);
        }
        assert(all.skip(i as int).skip(1) =~= all.skip(i + 1));
        i += 1;
    }
    None
}

/// A call with the same parts.
fn copied_call(call: &ParsedToolCall) -> (r: ParsedToolCall)
    ensures
        r@ == call@,
{
    ParsedToolCall { id: call.id.clone(), name: call.name.clone(), args: call.args.copied() }
}

/// The paths that file elements name.
fn paths_of(files: &Vec<AnswerFile>) -> (r: Vec<String>)
    ensures
        text::views(r@) == mention_paths(answer::mentions_view(files@)),
{
    let ghost all = mention_paths(answer::mentions_view(files@));
    let mut out: Vec<String> = Vec::new();
    let mut i: usize = 0;
    assert(text::views(out@) =~= all.take(0));
    while i < files.len()
        invariant
            i <= files@.len(),
            all == mention_paths(answer::mentions_view(files@)),
            text::views(out@) == all.take(i as int),
        decreases files@.len() - i,
    {
        let ghost before = text::views(out@);
        assert(all[i as int] == files@[i as int].path@);
        out.push(files[i].path.clone());
        assert(text::views(out@) =~= before.push(all[i as int]));
        i += 1;
        assert(text::views(out@) =~= all.take(i as int));
    }
    assert(all.take(i as int) =~= all);
    out
}

/// The result of a search that cannot start.
pub open spec fn early_outcome(root: Seq<char>, code: Seq<char>, message: Seq<char>) -> Outcome {
    Outcome {
        error: Some(Failure { code, message }),
        meta: Meta {
            project_root: Some(root),
            error_code: Some(code),
            ..types::no_meta()
        },
        ..types::no_outcome()
    }
}

/// The result of a search that cannot start, for want of a key or a token.
pub fn early_failure(project_root: &str, code: &str, message: &str) -> (r: SearchResult)
    ensures
        r@ == early_outcome(project_root@, code@, message@),
{
    let mut meta = SearchMeta::default();
    meta.project_root = Some(text::copied(project_root));
    meta.error_code = Some(text::copied(code));
    let mut result = SearchResult::default();
    result.error = Some(SearchError::new(code, message));
    result.meta = meta;
    result
}

impl SearchSession {
    /// Starts a search, given the scope snapshot of the project and what is to be
    /// said of its filter patterns.
    pub fn start(
        options: &SearchOptions,
        api_key: &str,
        jwt: &str,
        client: ClientInfo,
        repo_map: RepoMap,
        warnings: &Vec<String>,
    ) -> (r: (SearchSession, SearchStep))
        requires
            options.max_turns <= usize::MAX - 4,
        ensures
            reacts(r.0@, r.1, next_turn(
                opening(*options, api_key@, jwt@, client, repo_map@),
                warning_lines(text::views(warnings@)).push(turns::repo_map_line(repo_map@)),
                seq![],
            )),
            r.0@ == opening(*options, api_key@, jwt@, client, repo_map@),
            r.1.action is Request,
            in_bounds(r.0@),
    {
        let max_commands = protocol::limit_commands(options.max_commands);
        let prompt = protocol::build_system_prompt(
            options.max_turns,
            max_commands,
            options.max_results,
        );
        let question = turns::build_user_content(&options.query, &repo_map);
        let mut messages: Vec<ChatMessage> = Vec::new();
        messages.push(ChatMessage::simple(MessageRole::System, &prompt));
        messages.push(ChatMessage::simple(MessageRole::User, &question));
        let mut logs = list_warnings(warnings);
        let line = turns::format_repo_map_line(&repo_map);
        let ghost warned = text::views(logs@);
        let ghost shown = line@;
        logs.push(line);
        assert(text::views(logs@) =~= warned.push(shown));
        let mut session = SearchSession {
            project_root: options.project_root.clone(),
            api_key: text::copied(api_key),
            jwt: text::copied(jwt),
            client,
            tool_defs: tool_schema::get_tool_definitions(max_commands),
            max_turns: options.max_turns,
            max_commands,
            max_results: options.max_results,
            timeout_ms: options.timeout_ms,
            repo_map,
            messages,
            force_answer_injected: false,
            compensated_turns: 0,
            turn: 0,
            phase: Phase::Asking,
        };
        assert(session@.messages =~= opening(
            *options,
            api_key@,
            jwt@,
            client,
            repo_map@,
        ).messages);
        assert(session@ =~= opening(*options, api_key@, jwt@, client, repo_map@));
        let none = no_lines();
        let step = session.begin_turn(logs, &none);
        (session, step)
    }

    /// The request that carries the conversation.
    fn request(&self) -> (r: Vec<u8>)
        ensures
            r@ == request_of(self@),
    {
        protocol::build_request(
            &self.api_key,
            &self.jwt,
            &self.messages,
            &self.tool_defs,
            &self.client,
        )
    }

    /// What is shown when the turn starts.
    pub fn turn_label(&self) -> (r: String)
        requires
            in_bounds(self@),
        ensures
            r@ == turns::progress_line(
                self@.turn as nat,
                self@.compensated as nat,
                self@.max_turns as nat,
                self@.forced,
            ),
    {
        turns::format_search_progress_turn(
            self.turn,
            self.compensated_turns,
            self.max_turns,
            self.force_answer_injected,
        )
    }

    /// What the debug log calls the reply that is awaited.
    pub fn reply_label(&self) -> (r: String)
        requires
            in_bounds(self@),
        ensures
            r@ == turns::progress_line(
                self@.turn as nat,
                self@.compensated as nat,
                self@.max_turns as nat,
                self@.forced,
            ) + (if self@.stage is EmptyRetry {
                " retry"@
            } else {
                Seq::empty()
            }),
    {
        let mut label = self.turn_label();
        if let Phase::EmptyRetry = &self.phase {
            label.append(" retry");
        }
        label
    }

    /// The answer whose files are to be inspected.
    pub fn answer_text(&self) -> (r: Option<String>)
        ensures
            match self@.stage {
                Stage::Answering(content) => r is Some && r->0@ == content,
                _ => r is None,
            },
    {
        match &self.phase {
            Phase::Answering(content) => Some(text::copied(content)),
            _ => None,
        }
    }

    /// Ends the search.
    fn end(&mut self, logs: Vec<String>, result: SearchResult) -> (r: SearchStep)
        ensures
            reacts(final(self)@, r, finish(old(self)@, text::views(logs@), result@)),
    {
        self.phase = Phase::Finished;
        SearchStep { logs, action: SearchAction::Finish(result) }
    }

    /// The result of a search that failed.
    fn failure(&self, code: &str, message: &str) -> (r: SearchResult)
        ensures
            r@ == failed(self@, code@, message@),
    {
        let mut result = SearchResult::default();
        result.error = Some(SearchError::new(code, message));
        result.meta = turns::search_meta(&self.project_root, &self.repo_map, Some(code));
        result
    }

    /// Starts the next turn, or ends the search where no turn is left.
    fn begin_turn(&mut self, logs: Vec<String>, patterns: &Vec<String>) -> (r: SearchStep)
        requires
            old(self)@.max_turns <= usize::MAX - 4,
            old(self)@.compensated <= 2,
            1 <= old(self)@.max_commands <= 8,
            old(self)@.turn <= old(self)@.max_turns + 1 + old(self)@.compensated,
            old(self)@.compensated <= old(self)@.turn,
            old(self)@.forced ==> old(self)@.turn >= old(self)@.max_turns + old(self)@.compensated,
        ensures
            reacts(final(self)@, r, next_turn(
                old(self)@,
                text::views(logs@),
                text::views(patterns@),
            )),
            in_bounds(final(self)@),
    {
        if self.turn < self.max_turns + 1 + self.compensated_turns {
            let line = turns::format_search_progress_turn(
                self.turn,
                self.compensated_turns,
                self.max_turns,
                self.force_answer_injected,
            );
            let ghost before = text::views(logs@);
            let ghost shown = line@;
            let mut logs = logs;
            logs.push(line);
            assert(text::views(logs@) =~= before.push(shown));
            self.phase = Phase::Asking;
            SearchStep { logs, action: SearchAction::Request(self.request()) }
        } else {
            let mut result = self.failure(
                "MAX_TURNS_REACHED",
                "Max turns reached without getting an answer",
            );
            result.rg_patterns = unique_patterns(patterns);
            self.end(logs, result)
        }
    }

    /// Looks at the files that an answer names.
    fn inspect_answer(&mut self, content: &str) -> (r: SearchStep)
        requires
            in_bounds(old(self)@),
            old(self)@.stage is Asking || old(self)@.stage is Trimmed
                || old(self)@.stage is EmptyRetry,
        ensures
            reacts(final(self)@, r, inspect(old(self)@, content@)),
            in_bounds(final(self)@),
    {
        let files = answer::answer_files(protocol::runs_windows(&self.client), content);
        let paths = paths_of(&files);
        self.phase = Phase::Answering(text::copied(content));
        SearchStep {
            logs: one_line("Received final answer"),
            action: SearchAction::Inspect(paths),
        }
    }

    /// Adds a message to the conversation.
    fn say(&mut self, message: ChatMessage)
        ensures
            final(self)@ == (Session {
                messages: old(self)@.messages.push(message@),
                ..old(self)@
            }),
    {
        let ghost before = protocol::messages_view(self.messages@);
        let ghost shown = message@;
        self.messages.push(message);
        assert(protocol::messages_view(self.messages@) =~= before.push(shown));
    }

    /// Asks the model for its answer.
    fn demand_answer(&mut self)
        ensures
            final(self)@ == (Session {
                messages: old(self)@.messages.push(force_message()),
                forced: true,
                ..old(self)@
            }),
    {
        self.say(ChatMessage::simple(MessageRole::User, FINAL_FORCE_ANSWER));
        self.force_answer_injected = true;
    }

    /// Whether a turn counts as left when the turn ends.
    fn has_turns_left(&self) -> (r: bool)
        requires
            self@.turn < usize::MAX,
        ensures
            r == (used(self@) < self@.max_turns),
    {
        turns::effective_turns_used(self.turn, self.compensated_turns, self.max_turns)
            < self.max_turns
    }

    /// Tells the model how many turns are left.
    fn report_turns(&mut self)
        requires
            old(self)@.turn < usize::MAX,
        ensures
            final(self)@ == (Session {
                messages: old(self)@.messages.push(status_message(old(self)@)),
                ..old(self)@
            }),
    {
        let count = turns::effective_turns_used(self.turn, self.compensated_turns, self.max_turns);
        let status = turns::format_search_turn_status(count, self.max_turns);
        self.say(ChatMessage::simple(MessageRole::User, &status));
    }

    /// Ends a turn and starts the next.
    fn end_turn(&mut self, logs: Vec<String>, patterns: &Vec<String>) -> (r: SearchStep)
        requires
            old(self)@.max_turns <= usize::MAX - 4,
            old(self)@.compensated <= 2,
            1 <= old(self)@.max_commands <= 8,
            old(self)@.turn < old(self)@.max_turns + 1 + old(self)@.compensated,
            old(self)@.compensated <= old(self)@.turn + 1,
            old(self)@.forced ==> old(self)@.turn + 1 >= old(self)@.max_turns
                + old(self)@.compensated,
        ensures
            reacts(final(self)@, r, next_turn(
                turn_over(old(self)@),
                text::views(logs@),
                text::views(patterns@),
            )),
            in_bounds(final(self)@),
            !(r.action is Execute),
    {
        self.turn += 1;
        self.begin_turn(logs, patterns)
    }

    /// Ends the search with a text that holds no answer.
    fn end_with_text(&mut self, content: &str, patterns: &Vec<String>) -> (r: SearchStep)
        requires
            in_bounds(old(self)@),
            old(self)@.forced,
        ensures
            reacts(final(self)@, r, after_text(old(self)@, content@, text::views(patterns@))),
            in_bounds(final(self)@),
            r.action is Finish,
    {
        let mut result = SearchResult::default();
        result.rg_patterns = unique_patterns(patterns);
        result.raw_response = Some(text::copied(content));
        result.meta = turns::search_meta(&self.project_root, &self.repo_map, None);
        self.end(no_lines(), result)
    }

    /// Goes on after a text without an answer.
    fn go_on_after_text(&mut self, content: &str, patterns: &Vec<String>) -> (r: SearchStep)
        requires
            in_bounds(old(self)@),
            old(self)@.stage is Asking || old(self)@.stage is Trimmed
                || old(self)@.stage is EmptyRetry,
        ensures
            reacts(final(self)@, r, after_text(old(self)@, content@, text::views(patterns@))),
            in_bounds(final(self)@),
            !(r.action is Execute),
    {
        if self.force_answer_injected {
            return self.end_with_text(content, patterns);
        }
        let left = self.has_turns_left();
        self.say(ChatMessage::simple(MessageRole::Assistant, content));
        if left {
            self.report_turns();
            let logs = one_line("Plain-text response without answer; continuing search");
            self.end_turn(logs, patterns)
        } else {
            self.demand_answer();
            let logs = one_line("Injected force-answer prompt after plain-text response");
            self.end_turn(logs, patterns)
        }
    }

    /// Carries out a call.
    fn run_call(&mut self, thinking: &str, call: &ParsedToolCall) -> (r: SearchStep)
        requires
            in_bounds(old(self)@),
            old(self)@.stage is Asking || old(self)@.stage is Trimmed
                || old(self)@.stage is EmptyRetry,
            json::proper(call@.args),
        ensures
            reacts(final(self)@, r, execute(old(self)@, thinking@, call@)),
            in_bounds(final(self)@),
            r.action matches SearchAction::Execute { calls, .. } && tools::proper_commands(
                tools::commands_view(calls@),
            ),
    {
        let ghost before = self@;
        let number = text::decimal_usize(self.turn + 1);
        let mut step_id = text::copied(
            if text::same(&call.name, "restricted_exec") {
                "restricted-exec-"
            } else {
                "unsupported-tool-"
            },
        );
        step_id.append(&number);
        let mut logs = no_lines();
        let calls = if text::same(&call.name, "restricted_exec") {
            let calls = commands::restricted_exec_commands(&call.args, self.max_commands);
            if !commands::has_valid_restricted_exec_command(&call.args, self.max_commands) {
                if self.compensated_turns < turns::MAX_COMPENSATED_TURNS {
                    self.compensated_turns += 1;
                    let digits = text::decimal_usize(self.compensated_turns);
                    let mut line = text::copied(
                        "No valid restricted_exec commands; scheduling compensation turn ",
                    );
                    line.append(&digits);
                    line.append("/2");
                    logs = one_line(&line);
                } else {
                    logs = one_line("Turn compensation skipped: max compensations (2) reached");
                }
            }
            calls
        } else {
            let mut pairs: Vec<(String, Json)> = Vec::new();
            pairs.push(json::pair("type", json::text_value(&call.name)));
            pairs.push(json::pair("arguments", call.args.copied()));
            assert(json::entry_trees(pairs@) =~= seq![
                ("type"@, Tree::Text(call.name@)),
                ("arguments"@, call.args@),
            ]);
            let foreign = InstantContextToolCall {
                id: text::copied("command1"),
                name: text::copied("command1"),
                args: json::object(pairs),
            };
            let mut calls: Vec<InstantContextToolCall> = Vec::new();
            calls.push(foreign);
            assert(tools::commands_view(calls@) =~= seq![foreign_command(call@)]);
            calls
        };
        assert(text::views(logs@) == call_logs(before, call@));
        let count = text::decimal_usize(calls.len());
        let mut line = text::copied("Executing ");
        line.append(&count);
        line.append(" restricted_exec commands");
        let ghost so_far = text::views(logs@);
        let ghost shown = line@;
        logs.push(line);
        assert(text::views(logs@) =~= so_far.push(shown));
        let half = self.timeout_ms / 2;
        let timeout_budget_ms: u128 = if half < 1_000 {
            1_000
        } else {
            half as u128
        };
        self.phase = Phase::Executing { thinking: text::copied(thinking), call: copied_call(call) };
        SearchStep {
            logs,
            action: SearchAction::Execute { step_id, calls, timeout_budget_ms },
        }
    }

    /// Goes on after a turn of the model that says something.
    fn go_on_after_turn(&mut self, parsed: &ParsedModelTurn, patterns: &Vec<String>) -> (r:
        SearchStep)
        requires
            in_bounds(old(self)@),
            old(self)@.stage is Asking || old(self)@.stage is Trimmed
                || old(self)@.stage is EmptyRetry,
            response::proper_turn(parsed@),
        ensures
            reacts(final(self)@, r, after_turn(old(self)@, parsed@, text::views(patterns@))),
            in_bounds(final(self)@),
            r.action matches SearchAction::Execute { calls, .. } ==> tools::proper_commands(
                tools::commands_view(calls@),
            ),
    {
        match parsed {
            ParsedModelTurn::Error(message) => {
                let result = self.failure("MODEL_ERROR", message);
                self.end(no_lines(), result)
            },
            ParsedModelTurn::Text(content) => {
                if text::contains_text(content, "<ANSWER") {
                    self.inspect_answer(content)
                } else {
                    self.go_on_after_text(content, patterns)
                }
            },
            ParsedModelTurn::ToolCalls { thinking, calls } => {
                if let Some(call) = find_call(calls, "answer") {
                    return match call.args.text_at("answer") {
                        Some(content) => self.inspect_answer(content),
                        None => self.inspect_answer(""),
                    };
                }
                if let Some(call) = find_call(calls, "restricted_exec") {
                    return self.run_call(thinking, call);
                }
                if calls.len() > 0 {
                    let ghost all = response::calls_view(calls@);
                    assert(all[0] == calls@[0]@);
                    assert(json::proper(all[0].args));
                    return self.run_call(thinking, &calls[0]);
                }
                self.end_turn(no_lines(), patterns)
            },
        }
    }

    /// Goes on after a turn of the model. `patterns` are those that were searched
    /// for so far.
    pub fn on_turn(&mut self, parsed: &ParsedModelTurn, patterns: &Vec<String>) -> (r: SearchStep)
        requires
            in_bounds(old(self)@),
            old(self)@.stage is Asking || old(self)@.stage is Trimmed
                || old(self)@.stage is EmptyRetry,
            response::proper_turn(parsed@),
        ensures
            reacts(final(self)@, r, after_model(old(self)@, parsed@, text::views(patterns@))),
            in_bounds(final(self)@),
            r.action matches SearchAction::Execute { calls, .. } ==> tools::proper_commands(
                tools::commands_view(calls@),
            ),
    {
        let blank = match parsed {
            ParsedModelTurn::Text(content) => {
                let shown = text::trim(content);
                shown.as_str().is_empty()
            },
            _ => false,
        };
        if !blank {
            return self.go_on_after_turn(parsed, patterns);
        }
        if let Phase::EmptyRetry = self.phase {
            let result = self.failure("MODEL_EMPTY_RESPONSE", "Model returned empty response");
            return self.end(no_lines(), result);
        }
        self.phase = Phase::EmptyRetry;
        SearchStep {
            logs: one_line("Empty model response on turn; retrying once..."),
            action: SearchAction::Request(self.request()),
        }
    }

    /// Goes on after a request that failed.
    pub fn on_fault(&mut self, error: &FastContextError) -> (r: SearchStep)
        requires
            in_bounds(old(self)@),
            old(self)@.stage is Asking || old(self)@.stage is Trimmed
                || old(self)@.stage is EmptyRetry,
        ensures
            reacts(final(self)@, r, after_fault(old(self)@, error@)),
            in_bounds(final(self)@),
            !(r.action is Execute),
    {
        if let Phase::Trimmed = self.phase {
            let mut message = error.message.clone();
            message.append(" (retry failure)");
            let mut result = self.failure(&error.code, &message);
            result.meta.context_trimmed = Some(true);
            return self.end(no_lines(), result);
        }
        let first = match self.phase {
            Phase::Asking => true,
            _ => false,
        };
        if first && (text::same(&error.code, "PAYLOAD_TOO_LARGE") || text::same(
            &error.code,
            "TIMEOUT",
        )) && self.messages.len() > 4 {
            let place = turns::format_search_turn_ref(
                self.turn,
                self.compensated_turns,
                self.max_turns,
            );
            let mut line = error.code.clone();
            line.append(" on ");
            line.append(&place);
            line.append(": trimming context and retrying...");
            protocol::trim_messages(&mut self.messages);
            self.phase = Phase::Trimmed;
            return SearchStep {
                logs: one_line(&line),
                action: SearchAction::Request(self.request()),
            };
        }
        let result = self.failure(&error.code, &error.message);
        self.end(no_lines(), result)
    }

    /// Goes on after the reply to a request. `patterns` are those that were
    /// searched for so far.
    pub fn on_reply(
        &mut self,
        reply: &Result<Vec<u8>, FastContextError>,
        patterns: &Vec<String>,
    ) -> (r: SearchStep)
        requires
            in_bounds(old(self)@),
            old(self)@.stage is Asking || old(self)@.stage is Trimmed
                || old(self)@.stage is EmptyRetry,
        ensures
            reacts(final(self)@, r, after_reply(
                old(self)@,
                http::reply_view(*reply),
                text::views(patterns@),
            )),
            in_bounds(final(self)@),
            r.action matches SearchAction::Execute { calls, .. } ==> tools::proper_commands(
                tools::commands_view(calls@),
            ),
    {
        match reply {
            Ok(data) => {
                let parsed = response::parse_response(data);
                self.on_turn(&parsed, patterns)
            },
            Err(error) => self.on_fault(error),
        }
    }

    /// Goes on after a step, whose reports are `updates`. `patterns` are those that
    /// were searched for so far.
    pub fn on_updates(
        &mut self,
        updates: &Vec<InstantContextToolUpdate>,
        patterns: &Vec<String>,
    ) -> (r: SearchStep)
        requires
            in_bounds(old(self)@),
            old(self)@.stage is Executing,
        ensures
            old(self)@.stage matches Stage::Executing { thinking, call } ==> reacts(final(self)@,
                r, after_updates(
                old(self)@,
                thinking,
                call,
                tools::updates_view(updates@),
                text::views(patterns@),
            )),
            in_bounds(final(self)@),
            !(r.action is Execute),
    {
        let (said, told) = match &self.phase {
            Phase::Executing { thinking, call } => (
                ChatMessage {
                    role: MessageRole::Assistant,
                    content: thinking.clone(),
                    tool_call_id: Some(call.id.clone()),
                    tool_name: Some(call.name.clone()),
                    tool_args_json: Some(json::print(&call.args)),
                    ref_call_id: None,
                },
                ChatMessage {
                    role: MessageRole::Tool,
                    content: commands::format_restricted_exec_results(updates),
                    tool_call_id: None,
                    tool_name: None,
                    tool_args_json: None,
                    ref_call_id: Some(call.id.clone()),
                },
            ),
            _ => {
                return self.end(no_lines(), SearchResult::default());
            },
        };
        let left = self.has_turns_left();
        self.say(said);
        self.say(told);
        if left {
            self.report_turns();
            self.end_turn(no_lines(), patterns)
        } else if !self.force_answer_injected {
            self.demand_answer();
            let logs = one_line("Injected force-answer prompt");
            self.end_turn(logs, patterns)
        } else {
            self.end_turn(no_lines(), patterns)
        }
    }

    /// Ends the search with the files of its answer, given what is there of them.
    /// `patterns` are those that were searched for.
    pub fn on_probes(&mut self, probes: &Vec<FileProbe>, patterns: &Vec<String>) -> (r: SearchStep)
        requires
            in_bounds(old(self)@),
            old(self)@.stage is Answering,
        ensures
            old(self)@.stage matches Stage::Answering(content) ==> reacts(final(self)@, r, after_inspection(
                old(self)@,
                content,
                answer::probes_view(probes@),
                text::views(patterns@),
            )),
            in_bounds(final(self)@),
            r.action is Finish,
    {
        let mut result = match &self.phase {
            Phase::Answering(content) => answer::parse_answer(
                protocol::runs_windows(&self.client),
                content,
                &self.project_root,
                probes,
            ),
            _ => SearchResult::default(),
        };
        let ghost all = result@.files;
        if result.files.len() > self.max_results {
            result.files.truncate(self.max_results);
        }
        assert(types::files_view(result.files@) =~= first_files(all, self.max_results as nat));
        result.rg_patterns = unique_patterns(patterns);
        result.meta = turns::search_meta(&self.project_root, &self.repo_map, None);
        self.end(no_lines(), result)
    }
}

/// Whether nothing of what a search was asked for has changed.
pub open spec fn same_settings(a: Session, b: Session) -> bool {
    &&& a.project_root == b.project_root
    &&& a.api_key == b.api_key
    &&& a.jwt == b.jwt
    &&& a.client == b.client
    &&& a.tool_defs == b.tool_defs
    &&& a.max_turns == b.max_turns
    &&& a.max_commands == b.max_commands
    &&& a.max_results == b.max_results
    &&& a.timeout_ms == b.timeout_ms
    &&& a.map == b.map
}

/// A finished search loses nothing that it may report: its files are those that are
/// found for the answer, in order, all of them where there are no more than it may
/// report, else as many as it may. It reports no error, every pattern that was searched
/// for, and where it ran.
pub proof fn law_no_found_file_is_lost(
    s: Session,
    content: Seq<char>,
    probes: Seq<Probe>,
    patterns: Seq<Seq<char>>,
)
    ensures
        ({
            let named = answer::mentions(s.client.os@ == "windows"@, content);
            let found = answer::found_files(s.project_root, named, probes);
            after_inspection(s, content, probes, patterns).act matches Act::Finish(outcome) && {
                &&& outcome.files.len() == vstd::math::min(
                    found.len() as int,
                    s.max_results as int,
                )
                &&& forall|i: int|
                    0 <= i < found.len() && i < s.max_results ==> #[trigger] outcome.files[i]
                        == found[i]
                &&& outcome.error is None
                &&& outcome.raw_response is None
                &&& outcome.meta.project_root == Some(s.project_root)
                &&& outcome.meta.error_code is None
                &&& outcome.rg_patterns.no_duplicates()
                &&& forall|pattern: Seq<char>|
                    outcome.rg_patterns.contains(pattern) <==> #[trigger] patterns.contains(
                        pattern,
                    )
            }
        }),
{
    law_patterns_are_reported_once(patterns);
}

/// Patterns are reported in the order in which they were first searched for: later ones
/// come behind those that were there before.
pub proof fn law_patterns_are_reported_in_order(a: Seq<Seq<char>>, b: Seq<Seq<char>>)
    ensures
        distinct(a).is_prefix_of(distinct(a + b)),
    decreases b.len(),
{
    if b.len() == 0 {
        assert(a + b =~= a);
    } else {
        law_patterns_are_reported_in_order(a, b.drop_last());
        assert((a + b).drop_last() =~= a + b.drop_last());
        let before = distinct(a + b.drop_last());
        let all = distinct(a + b);
        assert(before.is_prefix_of(all));
        assert(distinct(a) =~= all.subrange(0, distinct(a).len() as int));
    }
}

/// What the model reports as an error ends the search with that error, and with nothing
/// found.
pub proof fn law_model_error_is_reported(s: Session, message: Seq<char>, patterns: Seq<Seq<char>>)
    ensures
        after_model(s, Turn::Error(message), patterns).act matches Act::Finish(outcome) && {
            &&& outcome.error == Some(Failure { code: "MODEL_ERROR"@, message })
            &&& outcome.meta.error_code == Some("MODEL_ERROR"@)
            &&& outcome.meta.project_root == Some(s.project_root)
            &&& outcome.files.len() == 0
        },
{
}

/// A request that failed ends the search with its own code and message, unless the
/// conversation may be cut. Of one that failed again after that the message says so.
pub proof fn law_fault_is_reported(s: Session, fault: Fault)
    requires
        !(s.stage is Asking && s.messages.len() > 4 && (fault.code == "PAYLOAD_TOO_LARGE"@
            || fault.code == "TIMEOUT"@)),
    ensures
        after_fault(s, fault).act matches Act::Finish(outcome) && {
            &&& outcome.error matches Some(failure) && failure.code == fault.code
                && failure.message == fault.message + (if s.stage is Trimmed {
                " (retry failure)"@
            } else {
                seq![]
            })
            &&& outcome.meta.error_code == Some(fault.code)
            &&& outcome.meta.context_trimmed == (if s.stage is Trimmed {
                Some(true)
            } else {
                None
            })
            &&& outcome.files.len() == 0
        },
{
    assert(fault.message + Seq::<char>::empty() =~= fault.message);
}

/// A request that was too large or took too long is sent once more, with the first two
/// and the last two messages of a longer conversation.
pub proof fn law_long_conversation_is_cut(s: Session, fault: Fault)
    requires
        s.stage is Asking,
        s.messages.len() > 4,
        fault.code == "PAYLOAD_TOO_LARGE"@ || fault.code == "TIMEOUT"@,
    ensures
        ({
            let next = after_fault(s, fault).session;
            let n = s.messages.len() as int;
            &&& same_settings(s, next)
            &&& next.stage is Trimmed
            &&& next.turn == s.turn && next.compensated == s.compensated && next.forced == s.forced
            &&& next.messages.len() == 5
            &&& next.messages[0] == s.messages[0] && next.messages[1] == s.messages[1]
            &&& next.messages[2].role == MessageRole::User
            &&& next.messages[3] == s.messages[n - 2] && next.messages[4] == s.messages[n - 1]
            &&& after_fault(s, fault).act == Act::Request(
                protocol::request_bytes(s.api_key, s.jwt, next.messages, s.tool_defs, s.client),
            )
        }),
{
}

/// An empty reply is asked for once more, with the same conversation; a second one ends
/// the search.
pub proof fn law_empty_reply_is_asked_for_again(
    s: Session,
    content: Seq<char>,
    patterns: Seq<Seq<char>>,
)
    requires
        text::trimmed(content).len() == 0,
    ensures
        !(s.stage is EmptyRetry) ==> after_model(s, Turn::Text(content), patterns).act
            == Act::Request(
            protocol::request_bytes(s.api_key, s.jwt, s.messages, s.tool_defs, s.client),
        ) && after_model(s, Turn::Text(content), patterns).session == (Session {
            stage: Stage::EmptyRetry,
            ..s
        }),
        s.stage is EmptyRetry ==> (after_model(s, Turn::Text(content), patterns).act matches
            Act::Finish(outcome) && outcome.files.len() == 0 && (outcome.error matches Some(
            failure,
        ) && failure.code == "MODEL_EMPTY_RESPONSE"@)),
{
}

/// The first call of the answer tool is what the search goes by, whatever other calls
/// stand beside it: the files to look at are all that its answer names, in order.
pub proof fn law_answer_call_is_taken(
    s: Session,
    thinking: Seq<char>,
    calls: Seq<Call>,
    i: int,
    content: Seq<char>,
    patterns: Seq<Seq<char>>,
)
    requires
        0 <= i < calls.len(),
        calls[i].name == "answer"@,
        forall|j: int| 0 <= j < i ==> (#[trigger] calls[j]).name != "answer"@,
        calls[i].args.get("answer"@) == Some(Tree::Text(content)),
    ensures
        ({
            let named = answer::mentions(s.client.os@ == "windows"@, content);
            let next = after_model(s, Turn::ToolCalls { thinking, calls }, patterns);
            &&& next.session == (Session { stage: Stage::Answering(content), ..s })
            &&& next.act matches Act::Inspect(files) && files.len() == named.len() && forall|k: int|
                0 <= k < named.len() ==> #[trigger] files[k] == named[k].path
        }),
{
    lemma_call_of(calls, "answer"@, i);
}

/// Text that holds an answer is taken as the answer, whole.
pub proof fn law_answer_text_is_taken(s: Session, content: Seq<char>, patterns: Seq<Seq<char>>)
    requires
        text::contains(content, "<ANSWER"@),
        text::trimmed(content).len() > 0,
    ensures
        ({
            let named = answer::mentions(s.client.os@ == "windows"@, content);
            let next = after_model(s, Turn::Text(content), patterns);
            &&& next.session == (Session { stage: Stage::Answering(content), ..s })
            &&& next.act matches Act::Inspect(files) && files.len() == named.len() && forall|k: int|
                0 <= k < named.len() ==> #[trigger] files[k] == named[k].path
        }),
{
}

/// The first call of a name is found where no call before it has the name.
proof fn lemma_call_of(calls: Seq<Call>, name: Seq<char>, i: int)
    requires
        0 <= i < calls.len(),
        calls[i].name == name,
        forall|j: int| 0 <= j < i ==> (#[trigger] calls[j]).name != name,
    ensures
        call_of(calls, name) == Some(calls[i]),
    decreases i,
{
    if i > 0 {
        assert(calls[0].name != name);
        let rest = calls.skip(1);
        assert forall|j: int| 0 <= j < i - 1 implies (#[trigger] rest[j]).name != name by {
            assert(rest[j] == calls[j + 1]);
        }
        lemma_call_of(rest, name, i - 1);
    }
}

/// No call of a name is found where none has it.
proof fn lemma_no_call_of(calls: Seq<Call>, name: Seq<char>)
    requires
        forall|j: int| 0 <= j < calls.len() ==> (#[trigger] calls[j]).name != name,
    ensures
        call_of(calls, name) is None,
    decreases calls.len(),
{
    if calls.len() > 0 {
        assert(calls[0].name != name);
        let rest = calls.skip(1);
        assert forall|j: int| 0 <= j < rest.len() implies (#[trigger] rest[j]).name != name by {
            assert(rest[j] == calls[j + 1]);
        }
        lemma_no_call_of(rest, name);
    }
}

/// The command for a call of another tool names the tool and holds its arguments.
proof fn lemma_foreign_command(call: Call)
    ensures
        foreign_command(call).args.get("type"@) == Some(Tree::Text(call.name)),
        foreign_command(call).args.get("arguments"@) == Some(call.args),
{
    let pairs = seq![("type"@, Tree::Text(call.name)), ("arguments"@, call.args)];
    reveal_strlit("type");
    reveal_strlit("arguments");
    assert("type"@[0] != "arguments"@[0]);
    json::law_object_holds_its_pairs(pairs, "type"@);
    json::law_object_holds_its_pairs(pairs, "arguments"@);
    assert(pairs[0].0 == "type"@);
    assert(pairs[1].0 == "arguments"@);
}

/// Where no answer is called for, the first call of `restricted_exec` is run, or the first
/// call where there is none. A call of another tool is handed on as one command, which
/// names the tool and holds its arguments. The conversation waits for the results.
pub proof fn law_call_is_run(
    s: Session,
    thinking: Seq<char>,
    calls: Seq<Call>,
    i: int,
    patterns: Seq<Seq<char>>,
)
    requires
        0 <= i < calls.len(),
        forall|j: int| 0 <= j < calls.len() ==> (#[trigger] calls[j]).name != "answer"@,
        if calls[i].name == "restricted_exec"@ {
            forall|j: int| 0 <= j < i ==> (#[trigger] calls[j]).name != "restricted_exec"@
        } else {
            i == 0 && forall|j: int|
                0 <= j < calls.len() ==> (#[trigger] calls[j]).name != "restricted_exec"@
        },
    ensures
        ({
            let next = after_model(s, Turn::ToolCalls { thinking, calls }, patterns);
            &&& same_settings(s, next.session)
            &&& next.session.messages == s.messages
            &&& next.session.turn == s.turn && next.session.forced == s.forced
            &&& next.session.stage == (Stage::Executing { thinking, call: calls[i] })
            &&& next.act matches Act::Execute { calls: run, budget_ms, .. } && {
                &&& budget_ms == vstd::math::max(1_000, s.timeout_ms as int / 2)
                &&& calls[i].name == "restricted_exec"@ ==> run == commands::commands_of(
                    calls[i].args,
                    s.max_commands as nat,
                )
                &&& calls[i].name != "restricted_exec"@ ==> run.len() == 1 && run[0].args.get(
                    "type"@,
                ) == Some(Tree::Text(calls[i].name)) && run[0].args.get("arguments"@) == Some(
                    calls[i].args,
                )
            }
        }),
{
    lemma_no_call_of(calls, "answer"@);
    if calls[i].name == "restricted_exec"@ {
        lemma_call_of(calls, "restricted_exec"@, i);
    } else {
        lemma_no_call_of(calls, "restricted_exec"@);
        lemma_foreign_command(calls[i]);
    }
}

/// A turn is given back where a call of `restricted_exec` holds no command that could be
/// run, twice at most, and in no other case.
pub proof fn law_turns_are_given_back(s: Session, thinking: Seq<char>, call: Call)
    ensures
        execute(s, thinking, call).session.compensated == s.compensated + (
        if call.name == "restricted_exec"@ && s.compensated < 2 && !commands::any_typed(
            call.args,
            protocol::command_limit(s.max_commands as int) as nat,
        ) {
            1int
        } else {
            0
        }),
{
}

/// The results of a step reach the model: the conversation goes on with the call as the
/// model made it and with the results under its identifier, and then tells how many turns
/// are left, or once that there are none. The next request holds all of it.
pub proof fn law_results_reach_the_model(
    s: Session,
    thinking: Seq<char>,
    call: Call,
    updates: Seq<Update>,
    patterns: Seq<Seq<char>>,
)
    requires
        in_bounds(s),
        s.stage == (Stage::Executing { thinking, call }),
    ensures
        ({
            let next = after_updates(s, thinking, call, updates, patterns);
            let said = next.session.messages;
            let n = s.messages.len() as int;
            let spent = s.turn + 1 - s.compensated;
            &&& same_settings(s, next.session)
            &&& next.session.turn == s.turn + 1
            &&& next.session.compensated == s.compensated
            &&& s.messages.is_prefix_of(said)
            &&& said[n] == (Message {
                role: MessageRole::Assistant,
                content: thinking,
                tool_call_id: Some(call.id),
                tool_name: Some(call.name),
                tool_args_json: Some(json::json_print(call.args)),
                ref_call_id: None,
            })
            &&& said[n + 1] == (Message {
                role: MessageRole::Tool,
                content: commands::results_text(updates),
                tool_call_id: None,
                tool_name: None,
                tool_args_json: None,
                ref_call_id: Some(call.id),
            })
            &&& spent < s.max_turns ==> said.len() == n + 3 && said[n + 2].role == MessageRole::User
                && said[n + 2].content == turns::turn_status(spent as nat, s.max_turns as nat)
                && next.session.forced == s.forced
            &&& spent >= s.max_turns && !s.forced ==> said.len() == n + 3 && said[n + 2].role
                == MessageRole::User && said[n + 2].content == FINAL_FORCE_ANSWER@
                && next.session.forced
            &&& spent >= s.max_turns && s.forced ==> said.len() == n + 2 && next.session.forced
            &&& next.act is Request <==> s.turn + 1 < s.max_turns + 1 + s.compensated
            &&& next.act is Request ==> next.act == Act::Request(
                protocol::request_bytes(s.api_key, s.jwt, said, s.tool_defs, s.client),
            )
            &&& !(next.act is Request) ==> (next.act matches Act::Finish(outcome)
                && outcome.files.len() == 0 && (outcome.error matches Some(failure) && failure.code
                == "MAX_TURNS_REACHED"@))
        }),
{
    let said = after_updates(s, thinking, call, updates, patterns).session.messages;
    assert(s.messages =~= said.subrange(0, s.messages.len() as int));
}

/// Text without an answer becomes part of the conversation, and the search goes on with
/// the number of turns that are left or with the demand for an answer. Once an answer was
/// demanded the text is what the search reports.
pub proof fn law_text_is_kept(s: Session, content: Seq<char>, patterns: Seq<Seq<char>>)
    requires
        in_bounds(s),
        s.stage is Asking || s.stage is Trimmed || s.stage is EmptyRetry,
        text::trimmed(content).len() > 0,
        !text::contains(content, "<ANSWER"@),
    ensures
        ({
            let next = after_model(s, Turn::Text(content), patterns);
            let said = next.session.messages;
            let n = s.messages.len() as int;
            let spent = s.turn + 1 - s.compensated;
            &&& same_settings(s, next.session)
            &&& s.forced ==> said == s.messages && (next.act matches Act::Finish(outcome)
                && outcome.raw_response == Some(content) && outcome.error is None
                && outcome.files.len() == 0)
            &&& !s.forced ==> {
                &&& next.session.turn == s.turn + 1
                &&& next.session.compensated == s.compensated
                &&& said.len() == n + 2
                &&& s.messages.is_prefix_of(said)
                &&& said[n].role == MessageRole::Assistant && said[n].content == content
                &&& said[n + 1].role == MessageRole::User
                &&& spent < s.max_turns ==> said[n + 1].content == turns::turn_status(
                    spent as nat,
                    s.max_turns as nat,
                ) && !next.session.forced
                &&& spent >= s.max_turns ==> said[n + 1].content == FINAL_FORCE_ANSWER@
                    && next.session.forced
                &&& next.act is Request ==> next.act == Act::Request(
                    protocol::request_bytes(s.api_key, s.jwt, said, s.tool_defs, s.client),
                )
                &&& next.act is Request <==> s.turn + 1 < s.max_turns + 1 + s.compensated
            }
        }),
{
    let said = after_model(s, Turn::Text(content), patterns).session.messages;
    if !s.forced {
        assert(s.messages =~= said.subrange(0, s.messages.len() as int));
    }
}

/// A search starts with a prompt and with the query and the snapshot of the project, has
/// all its turns before it, and may use as many commands as it is told, between one and
/// eight.
pub proof fn law_search_starts_with_the_query(
    options: SearchOptions,
    api_key: Seq<char>,
    jwt: Seq<char>,
    client: ClientInfo,
    map: Snapshot,
)
    ensures
        ({
            let s = opening(options, api_key, jwt, client, map);
            &&& s.api_key == api_key && s.jwt == jwt && s.client == client && s.map == map
            &&& s.project_root == options.project_root@
            &&& s.max_turns == options.max_turns
            &&& s.max_results == options.max_results
            &&& s.timeout_ms == options.timeout_ms
            &&& 1 <= s.max_commands <= 8
            &&& 1 <= options.max_commands <= 8 ==> s.max_commands == options.max_commands
            &&& s.turn == 0 && s.compensated == 0 && !s.forced && s.stage is Asking
            &&& s.messages.len() == 2
            &&& s.messages[0].role == MessageRole::System
            &&& s.messages[0].content == protocol::system_prompt(
                options.max_turns as nat,
                s.max_commands as int,
            )
            &&& s.messages[1].role == MessageRole::User
            &&& s.messages[1].content == turns::user_content(options.query@, map)
        }),
{
}

/// A search that cannot start finds nothing and tells why, and where it was to run.
pub proof fn law_search_that_cannot_start_says_why(
    root: Seq<char>,
    code: Seq<char>,
    message: Seq<char>,
)
    ensures
        ({
            let outcome = early_outcome(root, code, message);
            &&& outcome.error == Some(Failure { code, message })
            &&& outcome.meta.error_code == Some(code)
            &&& outcome.meta.project_root == Some(root)
            &&& outcome.files.len() == 0
            &&& outcome.rg_patterns.len() == 0
            &&& outcome.raw_response is None
        }),
{
}

/// Each warning of the path filter is told, in order.
pub proof fn law_every_warning_is_told(warnings: Seq<Seq<char>>)
    ensures
        warning_lines(warnings) == warnings.map_values(
            |warning: Seq<char>| "Path filter warning: "@ + warning,
        ),
{
    assert(warning_lines(warnings) =~= warnings.map_values(
        |warning: Seq<char>| "Path filter warning: "@ + warning,
    ));
}

/// A search whose turns have run out ends and says so, with the patterns that were searched
/// for, each once.
pub proof fn law_search_ends_when_turns_run_out(
    s: Session,
    logs: Seq<Seq<char>>,
    patterns: Seq<Seq<char>>,
)
    requires
        s.turn > s.max_turns + s.compensated,
    ensures
        ({
            let end = next_turn(s, logs, patterns);
            &&& end.act matches Act::Finish(outcome)
            &&& outcome.error == Some(
                Failure {
                    code: "MAX_TURNS_REACHED"@,
                    message: "Max turns reached without getting an answer"@,
                },
            )
            &&& outcome.files.len() == 0
            &&& outcome.rg_patterns == distinct(patterns)
            &&& outcome.meta.project_root == Some(s.project_root)
            &&& outcome.meta.error_code == Some("MAX_TURNS_REACHED"@)
            &&& end.logs == logs
        }),
{
}

/// What happens in a turn is told: that an answer came, that a reply was empty, that text came
/// without an answer, that the conversation was cut, and how often a turn was given back.
pub proof fn law_turns_are_told(
    s: Session,
    content: Seq<char>,
    patterns: Seq<Seq<char>>,
    fault: Fault,
    blank: Turn,
    call: Call,
)
    requires
        is_blank(blank),
        call.name == "restricted_exec"@,
        !gives_command(s, call),
    ensures
        inspect(s, content).logs == seq!["Received final answer"@],
        !(s.stage is EmptyRetry) ==> after_model(s, blank, patterns).logs == seq![
            "Empty model response on turn; retrying once..."@,
        ],
        s.stage is EmptyRetry ==> (after_model(s, blank, patterns).act matches Act::Finish(outcome)
            && outcome.error == Some(
            Failure { code: "MODEL_EMPTY_RESPONSE"@, message: "Model returned empty response"@ },
        )),
        !s.forced && used(s) < s.max_turns ==> after_text(s, content, patterns).logs[0]
            == "Plain-text response without answer; continuing search"@,
        !s.forced && used(s) >= s.max_turns ==> after_text(s, content, patterns).logs[0]
            == "Injected force-answer prompt after plain-text response"@,
        s.stage is Asking && may_shrink(s, fault) ==> after_fault(s, fault).logs == seq![
            fault.code + " on "@ + turns::turn_ref(
                s.turn as nat,
                s.compensated as nat,
                s.max_turns as nat,
            ) + ": trimming context and retrying..."@,
        ],
        s.stage is Trimmed ==> (after_fault(s, fault).act matches Act::Finish(outcome)
            && outcome.error == Some(
            Failure { code: fault.code, message: fault.message + " (retry failure)"@ },
        )),
        s.compensated < 2 ==> call_logs(s, call) == seq![
            "No valid restricted_exec commands; scheduling compensation turn "@ + text::decimal(
                (s.compensated + 1) as nat,
            ) + "/2"@,
        ],
        s.compensated >= 2 ==> call_logs(s, call) == seq![
            "Turn compensation skipped: max compensations (2) reached"@,
        ],
{
}

/// A call that gives a command, and one of another tool, is told nothing about; the steps are
/// named by their turn, counted from one.
pub proof fn law_steps_are_named_by_their_turn(s: Session, call: Call)
    ensures
        call.name != "restricted_exec"@ || gives_command(s, call) ==> call_logs(s, call).len() == 0,
        call.name == "restricted_exec"@ ==> step_name(s, call) == "restricted-exec-"@
            + text::decimal((s.turn + 1) as nat),
        call.name != "restricted_exec"@ ==> step_name(s, call) == "unsupported-tool-"@
            + text::decimal((s.turn + 1) as nat),
{
}

/// The model is told to answer when its turns are used, and that is told.
pub proof fn law_demand_is_told(
    s: Session,
    thinking: Seq<char>,
    call: Call,
    updates: Seq<Update>,
    patterns: Seq<Seq<char>>,
)
    requires
        used(s) >= s.max_turns,
        !s.forced,
    ensures
        after_updates(s, thinking, call, updates, patterns).logs[0]
            == "Injected force-answer prompt"@,
{
}

} // verus!
