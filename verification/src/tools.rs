//! The commands of a step: what they ask for, and how their results are reported.
use crate::json::{self, Json, Tree};
use crate::text;
use vstd::prelude::*;

verus! {

/// How far a command has come.
#[derive(Debug, Clone, Copy, PartialEq, Eq, Structural)]
pub enum ToolExecutionStatus {
    Pending,
    Completed,
    Error,
    TimedOut,
}

/// How long a command took.
#[derive(Debug, Clone, Copy, PartialEq, Eq, Structural)]
pub struct InstantContextTiming {
    pub duration_ms: u128,
}

impl Default for InstantContextTiming {
    fn default() -> (r: Self)
        ensures
            r.duration_ms == 0,
    {
        InstantContextTiming { duration_ms: 0 }
    }
}

/// A report on a command.
#[derive(Debug, Clone, PartialEq)]
pub struct InstantContextToolUpdate {
    pub step_id: String,
    pub tool_call_id: String,
    pub tool_name: String,
    pub command: Json,
    pub status: ToolExecutionStatus,
    pub output: String,
    pub timing: InstantContextTiming,
}

/// What a report says.
#[verifier::ext_equal]
pub struct Update {
    pub step_id: Seq<char>,
    pub tool_call_id: Seq<char>,
    pub tool_name: Seq<char>,
    pub command: Tree,
    pub status: ToolExecutionStatus,
    pub output: Seq<char>,
    pub duration_ms: u128,
}

impl View for InstantContextToolUpdate {
    type V = Update;

    open spec fn view(&self) -> Update {
        Update {
            step_id: self.step_id@,
            tool_call_id: self.tool_call_id@,
            tool_name: self.tool_name@,
            command: self.command@,
            status: self.status,
            output: self.output@,
            duration_ms: self.timing.duration_ms,
        }
    }
}

/// What reports say.
pub open spec fn updates_view(updates: Seq<InstantContextToolUpdate>) -> Seq<Update> {
    Seq::new(updates.len(), |i: int| updates[i]@)
}

/// A command of a step.
#[derive(Debug, Clone, PartialEq)]
pub struct InstantContextToolCall {
    pub id: String,
    pub name: String,
    pub args: Json,
}

/// What a command of a step says.
#[verifier::ext_equal]
pub struct Command {
    pub id: Seq<char>,
    pub name: Seq<char>,
    pub args: Tree,
}

impl View for InstantContextToolCall {
    type V = Command;

    open spec fn view(&self) -> Command {
        Command { id: self.id@, name: self.name@, args: self.args@ }
    }
}

/// What the commands of a step say.
pub open spec fn commands_view(calls: Seq<InstantContextToolCall>) -> Seq<Command> {
    Seq::new(calls.len(), |i: int| calls[i]@)
}

/// Whether the arguments of every command are proper.
pub open spec fn proper_commands(calls: Seq<Command>) -> bool {
    forall|i: int| 0 <= i < calls.len() ==> json::proper((#[trigger] calls[i]).args)
}

/// What became of a command that was run.
#[derive(Debug, Clone, PartialEq)]
pub enum CallOutcome {
    Finished { command: Json, output: String, duration_ms: u128 },
    TimedOut,
    Panicked,
}

/// The status that goes with the output of a command.
pub open spec fn output_status(output: Seq<char>) -> ToolExecutionStatus {
    if "Error:"@.is_prefix_of(text::trimmed_start(output)) {
        ToolExecutionStatus::Error
    } else {
        ToolExecutionStatus::Completed
    }
}

/// The status that goes with the output of a command.
pub fn status_of_output(output: &str) -> (r: ToolExecutionStatus)
    ensures
        r == output_status(output@),
{
    let shown = text::trim_start(output);
    if text::starts_with(&shown, "Error:") {
        ToolExecutionStatus::Error
    } else {
        ToolExecutionStatus::Completed
    }
}

/// The report that a command waits.
pub open spec fn pending_update(step_id: Seq<char>, call: Command) -> Update {
    Update {
        step_id,
        tool_call_id: call.id,
        tool_name: call.name,
        command: call.args,
        status: ToolExecutionStatus::Pending,
        output: ""@,
        duration_ms: 0,
    }
}

/// The report that a command took too long.
pub open spec fn timed_out_update(step_id: Seq<char>, call: Command, budget: u128) -> Update {
    Update {
        step_id,
        tool_call_id: call.id,
        tool_name: call.name,
        command: Tree::Null,
        status: ToolExecutionStatus::TimedOut,
        output: "Error: tool timed out"@,
        duration_ms: budget,
    }
}

/// The report on what became of a command.
pub open spec fn outcome_update(
    step_id: Seq<char>,
    call: Command,
    outcome: CallOutcome,
    budget: u128,
) -> Update {
    match outcome {
        CallOutcome::Finished { command, output, duration_ms } => Update {
            step_id,
            tool_call_id: call.id,
            tool_name: call.name,
            command: command@,
            status: output_status(output@),
            output: output@,
            duration_ms,
        },
        CallOutcome::TimedOut => timed_out_update(step_id, call, budget),
        CallOutcome::Panicked => Update {
            step_id,
            tool_call_id: call.id,
            tool_name: call.name,
            command: Tree::Null,
            status: ToolExecutionStatus::Error,
            output: "Error: command panicked"@,
            duration_ms: 0,
        },
    }
}

/// What became of command `i`. One of which nothing was heard panicked.
pub open spec fn outcome_at(outcomes: Seq<CallOutcome>, i: int) -> CallOutcome {
    if i < outcomes.len() {
        outcomes[i]
    } else {
        CallOutcome::Panicked
    }
}

/// The reports on a step: first that every command waits, then what became of
/// each, in the order of the commands. Without time every command took too long.
pub open spec fn step_updates(
    step_id: Seq<char>,
    calls: Seq<Command>,
    outcomes: Seq<CallOutcome>,
    budget: u128,
) -> Seq<Update> {
    Seq::new(calls.len(), |i: int| pending_update(step_id, calls[i])) + if budget == 0 {
        Seq::new(calls.len(), |i: int| timed_out_update(step_id, calls[i], 0))
    } else {
        Seq::new(
            calls.len(),
            |i: int| outcome_update(step_id, calls[i], outcome_at(outcomes, i), budget),
        )
    }
}

/// A report on a command.
fn make_update(
    step_id: &str,
    call: &InstantContextToolCall,
    command: Json,
    status: ToolExecutionStatus,
    output: &str,
    duration_ms: u128,
) -> (r: InstantContextToolUpdate)
    ensures
        r@ == (Update {
            step_id: step_id@,
            tool_call_id: call.id@,
            tool_name: call.name@,
            command: command@,
            status,
            output: output@,
            duration_ms,
        }),
{
    InstantContextToolUpdate {
        step_id: text::copied(step_id),
        tool_call_id: call.id.clone(),
        tool_name: call.name.clone(),
        command,
        status,
        output: text::copied(output),
        timing: InstantContextTiming { duration_ms },
    }
}

/// The report on what became of a command.
fn report_outcome(
    step_id: &str,
    call: &InstantContextToolCall,
    outcome: &CallOutcome,
    budget: u128,
) -> (r: InstantContextToolUpdate)
    ensures
        r@ == outcome_update(step_id@, call@, *outcome, budget),
{
    match outcome {
        CallOutcome::Finished { command, output, duration_ms } => make_update(
            step_id,
            call,
            command.copied(),
            status_of_output(output),
            output,
            *duration_ms,
        ),
        CallOutcome::TimedOut => make_update(
            step_id,
            call,
            Json::Null,
            ToolExecutionStatus::TimedOut,
            "Error: tool timed out",
            budget,
        ),
        CallOutcome::Panicked => make_update(
            step_id,
            call,
            Json::Null,
            ToolExecutionStatus::Error,
            "Error: command panicked",
            0,
        ),
    }
}

/// The reports on a step, given what became of its commands.
pub fn restricted_exec_step_updates(
    step_id: &str,
    calls: &Vec<InstantContextToolCall>,
    outcomes: &Vec<CallOutcome>,
    timeout_budget_ms: u128,
) -> (r: Vec<InstantContextToolUpdate>)
    ensures
        updates_view(r@) == step_updates(
            step_id@,
            commands_view(calls@),
            outcomes@,
            timeout_budget_ms,
        ),
{
    let ghost shown = commands_view(calls@);
    let mut out: Vec<InstantContextToolUpdate> = Vec::new();
    let mut i: usize = 0;
    while i < calls.len()
        invariant
            i <= calls@.len(),
            shown == commands_view(calls@),
            out@.len() == i,
            forall|k: int| 0 <= k < i ==> (#[trigger] out@[k])@ == pending_update(step_id@, shown[k]),
        decreases calls@.len() - i,
    {
        out.push(
            make_update(
                step_id,
                &calls[i],
                calls[i].args.copied(),
                ToolExecutionStatus::Pending,
                "",
                0,
            ),
        );
        i += 1;
    }
    let ghost waiting = updates_view(out@);
    assert(waiting =~= Seq::new(calls@.len(), |i: int| pending_update(step_id@, shown[i])));
    let n = calls.len();
    let mut k: usize = 0;
    if timeout_budget_ms == 0 {
        while k < calls.len()
            invariant
                k <= calls@.len(),
                n == calls@.len(),
                shown == commands_view(calls@),
                updates_view(out@) == waiting + Seq::new(
                    k as nat,
                    |i: int| timed_out_update(step_id@, shown[i], 0),
                ),
            decreases calls@.len() - k,
        {
            let ghost before = updates_view(out@);
            let update = make_update(
                step_id,
                &calls[k],
                Json::Null,
                ToolExecutionStatus::TimedOut,
                "Error: tool timed out",
                0,
            );
            out.push(update);
            assert(updates_view(out@) =~= before.push(update@));
            k += 1;
            assert(updates_view(out@) =~= waiting + Seq::new(
                k as nat,
                |i: int| timed_out_update(step_id@, shown[i], 0),
            ));
        }
    } else {
        assert(updates_view(out@) =~= waiting + Seq::new(
            0,
            |i: int| outcome_update(step_id@, shown[i], outcome_at(outcomes@, i), timeout_budget_ms),
        ));
        while k < calls.len()
            invariant
                k <= calls@.len(),
                n == calls@.len(),
                shown == commands_view(calls@),
                updates_view(out@) == waiting + Seq::new(
                    k as nat,
                    |i: int|
                        outcome_update(
                            step_id@,
                            shown[i],
                            outcome_at(outcomes@, i),
                            timeout_budget_ms,
                        ),
                ),
            decreases calls@.len() - k,
        {
            let ghost before = updates_view(out@);
            let update = if k < outcomes.len() {
                report_outcome(step_id, &calls[k], &outcomes[k], timeout_budget_ms)
            } else {
                report_outcome(step_id, &calls[k], &CallOutcome::Panicked, timeout_budget_ms)
            };
            out.push(update);
            assert(updates_view(out@) =~= before.push(update@));
            k += 1;
            assert(updates_view(out@) =~= waiting + Seq::new(
                k as nat,
                |i: int|
                    outcome_update(
                        step_id@,
                        shown[i],
                        outcome_at(outcomes@, i),
                        timeout_budget_ms,
                    ),
            ));
        }
    }
    out
}

/// The arguments with which a command is run: an object without a type gets
/// the name of the command as its type.
pub open spec fn prepared_args(call: Command) -> Tree {
    match call.args {
        Tree::Object(entries) => if json::lookup(entries, "type"@) is None {
            Tree::Object(json::inserted(entries, "type"@, Tree::Text(call.name)))
        } else {
            call.args
        },
        _ => call.args,
    }
}

/// The arguments with which a command is run.
pub fn prepare_command(call: &InstantContextToolCall) -> (r: Json)
    requires
        json::proper(call.args@),
    ensures
        r@ == prepared_args(call@),
        json::proper(r@),
{
    with_default_type(&call.args, &call.name)
}

/// `args` with `kind` as its type, where it is an object without one.
pub fn with_default_type(args: &Json, kind: &str) -> (r: Json)
    requires
        json::proper(args@),
    ensures
        r@ == prepared_args(Command { id: seq![], name: kind@, args: args@ }),
        json::proper(r@),
{
    match args {
        Json::Object(entries) => {
            proof {
                json::lemma_object_view(*entries);
                json::lemma_object_proper(json::entry_trees(entries@));
            }
            if json::find_entry(entries, "type").is_some() {
                return args.copied();
            }
            let mut out = json::copied_entries(entries);
            let kind_value = json::text_value(kind);
            proof {
                json::lemma_inserted_values(json::entry_trees(out@), "type"@, kind_value@);
            }
            json::insert(&mut out, "type", kind_value);
            proof {
                json::lemma_object_view(out);
                json::lemma_proper_object(json::entry_trees(out@));
            }
            Json::Object(out)
        },
        _ => args.copied(),
    }
}

/// What a command asks for.
#[derive(Debug, Clone, PartialEq, Eq)]
pub enum CommandPlan {
    Reject(String),
    Rg {
        pattern: String,
        path: String,
        included: Option<Vec<String>>,
        excluded: Option<Vec<String>>,
    },
    ReadFile { file: String, start_line: Option<usize>, end_line: Option<usize> },
    Tree { path: String, levels: Option<usize> },
    Ls { path: String, long_format: bool, all: bool },
    Glob { pattern: String, path: String, type_filter: String },
}

/// What a plan says.
#[verifier::ext_equal]
pub enum Plan {
    Reject(Seq<char>),
    Rg {
        pattern: Seq<char>,
        path: Seq<char>,
        included: Option<Seq<Seq<char>>>,
        excluded: Option<Seq<Seq<char>>>,
    },
    ReadFile { file: Seq<char>, start_line: Option<usize>, end_line: Option<usize> },
    Tree { path: Seq<char>, levels: Option<usize> },
    Ls { path: Seq<char>, long_format: bool, all: bool },
    Glob { pattern: Seq<char>, path: Seq<char>, type_filter: Seq<char> },
}

/// The texts of an optional list.
pub open spec fn opt_views(list: Option<Vec<String>>) -> Option<Seq<Seq<char>>> {
    match list {
        Some(list) => Some(text::views(list@)),
        None => None,
    }
}

impl View for CommandPlan {
    type V = Plan;

    open spec fn view(&self) -> Plan {
        match self {
            CommandPlan::Reject(message) => Plan::Reject(message@),
            CommandPlan::Rg { pattern, path, included, excluded } => Plan::Rg {
                pattern: pattern@,
                path: path@,
                included: opt_views(*included),
                excluded: opt_views(*excluded),
            },
            CommandPlan::ReadFile { file, start_line, end_line } => Plan::ReadFile {
                file: file@,
                start_line: *start_line,
                end_line: *end_line,
            },
            CommandPlan::Tree { path, levels } => Plan::Tree { path: path@, levels: *levels },
            CommandPlan::Ls { path, long_format, all } => Plan::Ls {
                path: path@,
                long_format: *long_format,
                all: *all,
            },
            CommandPlan::Glob { pattern, path, type_filter } => Plan::Glob {
                pattern: pattern@,
                path: path@,
                type_filter: type_filter@,
            },
        }
    }
}

/// The texts among the first `n` items.
pub open spec fn texts_among(items: Seq<Tree>, n: int) -> Seq<Seq<char>>
    decreases n,
{
    if n <= 0 {
        seq![]
    } else {
        match items[n - 1].as_text() {
            Some(content) => texts_among(items, n - 1).push(content),
            None => texts_among(items, n - 1),
        }
    }
}

/// The texts of a list under `key`, where there is a list.
pub open spec fn list_at(command: Tree, key: Seq<char>) -> Option<Seq<Seq<char>>> {
    match command.get(key) {
        Some(Tree::Array(items)) => Some(texts_among(items, items.len() as int)),
        _ => None,
    }
}

/// The text under `key`; `other` where there is none.
pub open spec fn text_or(command: Tree, key: Seq<char>, other: Seq<char>) -> Seq<char> {
    match json::text_at(command, key) {
        Some(content) => content,
        None => other,
    }
}

/// The number under `key`, where there is one.
pub open spec fn number_at(command: Tree, key: Seq<char>) -> Option<usize> {
    match command.get(key) {
        Some(value) => match value.as_u64() {
            Some(n) => Some(n as usize),
            None => None,
        },
        None => None,
    }
}

/// The flag under `key`; off where there is none.
pub open spec fn flag_at(command: Tree, key: Seq<char>) -> bool {
    match command.get(key) {
        Some(value) => value.as_bool() == Some(true),
        None => false,
    }
}

/// What a command asks for.
pub open spec fn plan_of(command: Tree) -> Plan {
    let kind = text_or(command, "type"@, ""@);
    if !(command is Object) {
        Plan::Reject("Error: missing or invalid command"@)
    } else if kind == "rg"@ {
        Plan::Rg {
            pattern: text_or(command, "pattern"@, ""@),
            path: text_or(command, "path"@, ""@),
            included: list_at(command, "include"@),
            excluded: list_at(command, "exclude"@),
        }
    } else if kind == "readfile"@ {
        Plan::ReadFile {
            file: text_or(command, "file"@, ""@),
            start_line: number_at(command, "start_line"@),
            end_line: number_at(command, "end_line"@),
        }
    } else if kind == "tree"@ {
        Plan::Tree {
            path: text_or(command, "path"@, ""@),
            levels: number_at(command, "levels"@),
        }
    } else if kind == "ls"@ {
        Plan::Ls {
            path: text_or(command, "path"@, ""@),
            long_format: flag_at(command, "long_format"@),
            all: flag_at(command, "all"@),
        }
    } else if kind == "glob"@ {
        Plan::Glob {
            pattern: text_or(command, "pattern"@, ""@),
            path: text_or(command, "path"@, ""@),
            type_filter: text_or(command, "type_filter"@, "file"@),
        }
    } else {
        Plan::Reject("Error: unknown command type '"@ + kind + "'"@)
    }
}

/// The texts of a list, where the value is one.
pub fn string_array(value: Option<&Json>) -> (r: Option<Vec<String>>)
    ensures
        opt_views(r) == match json::opt_ref_tree(value) {
            Some(Tree::Array(items)) => Some(texts_among(items, items.len() as int)),
            _ => None,
        },
{
    match value {
        Some(Json::Array(items)) => {
            let ghost all = json::trees(items@);
            proof {
                json::lemma_array_view(*items);
            }
            let mut out: Vec<String> = Vec::new();
            let mut i: usize = 0;
            assert(text::views(out@) =~= seq![]);
            while i < items.len()
                invariant
                    i <= items@.len(),
                    all == json::trees(items@),
                    text::views(out@) == texts_among(all, i as int),
                decreases items@.len() - i,
            {
                let ghost before = text::views(out@);
                assert(all[i as int] == items@[i as int]@);
                if let Some(content) = items[i].as_str() {
                    out.push(text::copied(content));
                    assert(text::views(out@) =~= before.push(content@));
                }
                i += 1;
            }
            Some(out)
        },
        _ => None,
    }
}

/// The text under `key`; `other` where there is none.
fn find_text(command: &Json, key: &str, other: &str) -> (r: String)
    ensures
        r@ == text_or(command@, key@, other@),
{
    match command.text_at(key) {
        Some(content) => text::copied(content),
        None => text::copied(other),
    }
}

/// The number under `key`, where there is one.
fn find_number(command: &Json, key: &str) -> (r: Option<usize>)
    ensures
        r == number_at(command@, key@),
{
    match command.get(key) {
        Some(value) => match value.as_u64() {
            Some(n) => Some(n as usize),
            None => None,
        },
        None => None,
    }
}

/// The flag under `key`; off where there is none.
fn find_flag(command: &Json, key: &str) -> (r: bool)
    ensures
        r == flag_at(command@, key@),
{
    match command.get(key) {
        Some(value) => match value.as_bool() {
            Some(flag) => flag,
            None => false,
        },
        None => false,
    }
}

/// What a command asks for.
pub fn plan_command(command: &Json) -> (r: CommandPlan)
    ensures
        r@ == plan_of(command@),
{
    match command {
        Json::Object(_) => {},
        _ => {
            return CommandPlan::Reject(text::copied("Error: missing or invalid command"));
        },
    }
    let kind = find_text(command, "type", "");
    if text::same(&kind, "rg") {
        CommandPlan::Rg {
            pattern: find_text(command, "pattern", ""),
            path: find_text(command, "path", ""),
            included: string_array(command.get("include")),
            excluded: string_array(command.get("exclude")),
        }
    } else if text::same(&kind, "readfile") {
        CommandPlan::ReadFile {
            file: find_text(command, "file", ""),
            start_line: find_number(command, "start_line"),
            end_line: find_number(command, "end_line"),
        }
    } else if text::same(&kind, "tree") {
        CommandPlan::Tree {
            path: find_text(command, "path", ""),
            levels: find_number(command, "levels"),
        }
    } else if text::same(&kind, "ls") {
        CommandPlan::Ls {
            path: find_text(command, "path", ""),
            long_format: find_flag(command, "long_format"),
            all: find_flag(command, "all"),
        }
    } else if text::same(&kind, "glob") {
        CommandPlan::Glob {
            pattern: find_text(command, "pattern", ""),
            path: find_text(command, "path", ""),
            type_filter: find_text(command, "type_filter", "file"),
        }
    } else {
        let mut message = text::copied("Error: unknown command type '");
        message.append(&kind);
        message.append("'");
        CommandPlan::Reject(message)
    }
}

/// Every command of a step is reported as waiting and then as done: the reports
/// are in the order of the commands, and carry their identifiers. One of which
/// nothing was heard in time is reported as an error.
pub proof fn law_step_reports_every_command(
    step_id: Seq<char>,
    calls: Seq<Command>,
    outcomes: Seq<CallOutcome>,
    budget: u128,
    i: int,
)
    requires
        0 <= i < calls.len(),
    ensures
        ({
            let updates = step_updates(step_id, calls, outcomes, budget);
            &&& updates.len() == 2 * calls.len()
            &&& updates[i].tool_call_id == calls[i].id
            &&& updates[i].status is Pending
            &&& updates[calls.len() + i].tool_call_id == calls[i].id
            &&& !(updates[calls.len() + i].status is Pending)
            &&& budget == 0 ==> updates[calls.len() + i].status is TimedOut
            &&& budget > 0 && i >= outcomes.len() ==> updates[calls.len() + i].status is Error
        }),
{
}

/// What became of each command is reported for that command: its own output, the command
/// as it was run and the time that it took. Output that starts with an error counts as one.
pub proof fn law_outcomes_reach_their_commands(
    step_id: Seq<char>,
    calls: Seq<Command>,
    outcomes: Seq<CallOutcome>,
    budget: u128,
    i: int,
)
    requires
        0 <= i < calls.len(),
        budget > 0,
        i < outcomes.len(),
    ensures
        ({
            let waiting = step_updates(step_id, calls, outcomes, budget)[i];
            let done = step_updates(step_id, calls, outcomes, budget)[calls.len() + i];
            &&& waiting.step_id == step_id && done.step_id == step_id
            &&& waiting.tool_name == calls[i].name && done.tool_name == calls[i].name
            &&& waiting.command == calls[i].args
            &&& waiting.output == ""@ && waiting.duration_ms == 0
            &&& match outcomes[i] {
                CallOutcome::Finished { command, output, duration_ms } => {
                    &&& done.command == command@
                    &&& done.output == output@
                    &&& done.duration_ms == duration_ms
                    &&& done.status is Error <==> "Error:"@.is_prefix_of(
                        text::trimmed_start(output@),
                    )
                    &&& done.status is Error || done.status is Completed
                },
                CallOutcome::TimedOut => done.status is TimedOut && done.duration_ms == budget
                    && done.output == "Error: tool timed out"@,
                CallOutcome::Panicked => done.status is Error && done.output
                    == "Error: command panicked"@,
            }
        }),
{
}

/// A command without a type gets its name as its type; everything else in it is kept.
pub proof fn law_commands_get_a_type(call: Command, key: Seq<char>)
    requires
        call.args is Object,
    ensures
        call.args.get("type"@) is None ==> prepared_args(call).get("type"@) == Some(
            Tree::Text(call.name),
        ),
        call.args.get(key) is Some || key != "type"@ ==> prepared_args(call).get(key)
            == call.args.get(key),
{
    if let Tree::Object(entries) = call.args {
        json::law_insert_then_lookup(entries, "type"@, Tree::Text(call.name), key);
    }
}

/// What a command gives under a key, where that is a text.
pub open spec fn given_text(command: Tree, key: Seq<char>) -> Seq<char> {
    match command.get(key) {
        Some(Tree::Text(content)) => content,
        _ => seq![],
    }
}

/// The names of the kinds of commands differ.
proof fn lemma_kinds_differ()
    ensures
        "rg"@ != "readfile"@,
        "rg"@ != "tree"@,
        "rg"@ != "ls"@,
        "rg"@ != "glob"@,
        "readfile"@ != "tree"@,
        "readfile"@ != "ls"@,
        "readfile"@ != "glob"@,
        "tree"@ != "ls"@,
        "tree"@ != "glob"@,
        "ls"@ != "glob"@,
        ""@ == Seq::<char>::empty(),
{
    reveal_strlit("rg");
    reveal_strlit("readfile");
    reveal_strlit("tree");
    reveal_strlit("ls");
    reveal_strlit("glob");
    reveal_strlit("");
    assert("rg"@.len() == 2 && "readfile"@.len() == 8);
    assert("rg"@[0] == 'r' && "readfile"@[0] == 'r' && "tree"@[0] == 't' && "ls"@[0] == 'l'
        && "glob"@[0] == 'g');
    assert(""@ =~= Seq::<char>::empty());
}

/// A command is run by its type, with the values that it gives: a search with its pattern,
/// its path and the globs on either side; a look into a file with the lines that it is about;
/// a tree with its levels; a listing with its flags; and a glob with the kind of file that
/// it is about, files where it does not say.
pub proof fn law_commands_are_run_as_given(command: Tree)
    requires
        command is Object,
    ensures
        command.get("type"@) == Some(Tree::Text("rg"@)) ==> (plan_of(command) matches Plan::Rg {
            pattern,
            path,
            included,
            excluded,
        } && pattern == given_text(command, "pattern"@) && path == given_text(command, "path"@)
            && included == list_at(command, "include"@) && excluded == list_at(
            command,
            "exclude"@,
        )),
        command.get("type"@) == Some(Tree::Text("readfile"@)) ==> (plan_of(command) matches
            Plan::ReadFile { file, start_line, end_line } && file == given_text(command, "file"@)
            && start_line == number_at(command, "start_line"@) && end_line == number_at(
            command,
            "end_line"@,
        )),
        command.get("type"@) == Some(Tree::Text("tree"@)) ==> (plan_of(command) matches
            Plan::Tree { path, levels } && path == given_text(command, "path"@) && levels
            == number_at(command, "levels"@)),
        command.get("type"@) == Some(Tree::Text("ls"@)) ==> (plan_of(command) matches Plan::Ls {
            path,
            long_format,
            all,
        } && path == given_text(command, "path"@) && long_format == (command.get("long_format"@)
            == Some(Tree::Bool(true))) && all == (command.get("all"@) == Some(Tree::Bool(true)))),
        command.get("type"@) == Some(Tree::Text("glob"@)) ==> (plan_of(command) matches
            Plan::Glob { pattern, path, type_filter } && pattern == given_text(
            command,
            "pattern"@,
        ) && path == given_text(command, "path"@) && type_filter == (match command.get(
            "type_filter"@,
        ) {
            Some(Tree::Text(kind)) => kind,
            _ => "file"@,
        })),
{
    lemma_kinds_differ();
}

/// A command of a type that is not known is refused with its type, and what is no object
/// is refused.
pub proof fn law_unknown_commands_are_refused(command: Tree, kind: Seq<char>)
    ensures
        command is Object && command.get("type"@) == Some(Tree::Text(kind)) && kind != "rg"@ && kind
            != "readfile"@ && kind != "tree"@ && kind != "ls"@ && kind != "glob"@ ==> plan_of(
            command,
        ) == Plan::Reject("Error: unknown command type '"@ + kind + "'"@),
        !(command is Object) ==> plan_of(command) == Plan::Reject(
            "Error: missing or invalid command"@,
        ),
{
}

/// A list gives all texts in it, in order, and leaves out what is none.
pub proof fn law_lists_give_their_texts(command: Tree, key: Seq<char>, items: Seq<Tree>)
    requires
        command.get(key) == Some(Tree::Array(items)),
    ensures
        list_at(command, key) == Some(
            items.filter(|item: Tree| item is Text).map_values(
                |item: Tree|
                    match item {
                        Tree::Text(content) => content,
                        _ => seq![],
                    },
            ),
        ),
{
    lemma_texts_among(items, items.len() as int);
    assert(items.take(items.len() as int) =~= items);
}

/// Texts are found in their order.
proof fn lemma_texts_among(items: Seq<Tree>, n: int)
    requires
        0 <= n <= items.len(),
    ensures
        texts_among(items, n) == items.take(n).filter(|item: Tree| item is Text).map_values(
            |item: Tree|
                match item {
                    Tree::Text(content) => content,
                    _ => seq![],
                },
        ),
    decreases n,
{
    reveal(Seq::filter);
    let wanted = |item: Tree| item is Text;
    let content = |item: Tree|
        match item {
            Tree::Text(content) => content,
            _ => seq![],
        };
    if n == 0 {
        assert(items.take(0).filter(wanted).map_values(content) =~= seq![]);
    } else {
        lemma_texts_among(items, n - 1);
        assert(items.take(n).drop_last() =~= items.take(n - 1));
        assert(items.take(n).last() == items[n - 1]);
        let before = items.take(n - 1).filter(wanted);
        if wanted(items[n - 1]) {
            assert(before.push(items[n - 1]).map_values(content) =~= before.map_values(
                content,
            ).push(content(items[n - 1])));
        }
    }
}

/// A number that is given is taken as it is.
pub proof fn law_numbers_are_taken(command: Tree, key: Seq<char>, n: int)
    ensures
        command.get(key) == Some(Tree::Integer(n)) && 0 <= n <= usize::MAX && n <= u64::MAX
            ==> number_at(command, key) == Some(n as usize),
        command.get(key) == Some(Tree::Integer(n)) && n < 0 ==> number_at(command, key) is None,
        command.get(key) is None ==> number_at(command, key) is None,
{
}

/// A command that has not run yet is pending, with nothing put out; one that panicked is in
/// error; one that ended is told with what it put out and how long it took.
pub proof fn law_states_of_commands_are_told(
    step_id: Seq<char>,
    call: Command,
    outcome: CallOutcome,
    budget: u128,
)
    ensures
        ({
            let waiting = pending_update(step_id, call);
            let over = outcome_update(step_id, call, outcome, budget);
            &&& waiting.status is Pending
            &&& waiting.output.len() == 0
            &&& waiting.command == call.args
            &&& waiting.step_id == step_id && over.step_id == step_id
            &&& waiting.tool_call_id == call.id && over.tool_call_id == call.id
            &&& waiting.tool_name == call.name && over.tool_name == call.name
            &&& outcome is Panicked ==> over.status is Error && over.output
                == "Error: command panicked"@
            &&& outcome is TimedOut ==> over.status is TimedOut && over.output
                == "Error: tool timed out"@ && over.duration_ms == budget
            &&& outcome matches CallOutcome::Finished { command, output, duration_ms } ==> {
                &&& over.output == output@
                &&& over.command == command@
                &&& over.duration_ms == duration_ms
            }
        }),
{
    reveal_strlit("");
}

} // verus!
