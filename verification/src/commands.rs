//! The commands that the arguments of `restricted_exec` ask for.
use crate::json::{self, Json, Tree};
use crate::protocol;
use crate::text;
use crate::tool_schema;
use crate::tools::{
    self, Command, InstantContextToolCall, InstantContextToolUpdate, ToolExecutionStatus, Update,
};
use vstd::prelude::*;

verus! {

/// Whether a text is there that is more than white space.
pub open spec fn is_given(content: Option<Seq<char>>) -> bool {
    match content {
        Some(content) => text::trimmed(content).len() > 0,
        None => false,
    }
}

/// Whether a text is there that is more than white space.
fn given(content: Option<&str>) -> (r: bool)
    ensures
        r == is_given(text::opt_str_view(content)),
{
    match content {
        Some(content) => {
            let shown = text::trim(content);
            !shown.as_str().is_empty()
        },
        None => false,
    }
}

/// The field that the value of a shorthand goes to.
pub open spec fn target_field(kind: Seq<char>) -> Option<Seq<char>> {
    if kind == "rg"@ || kind == "glob"@ {
        Some("pattern"@)
    } else if kind == "readfile"@ {
        Some("file"@)
    } else if kind == "tree"@ || kind == "ls"@ {
        Some("path"@)
    } else {
        None
    }
}

/// `entries` with each of `more` put in, but for the one under `left_out`.
pub open spec fn with_others(
    entries: Seq<(Seq<char>, Tree)>,
    more: Seq<(Seq<char>, Tree)>,
    left_out: Seq<char>,
) -> Seq<(Seq<char>, Tree)>
    decreases more.len(),
{
    if more.len() == 0 {
        entries
    } else {
        let before = with_others(entries, more.drop_last(), left_out);
        if more.last().0 == left_out {
            before
        } else {
            json::inserted(before, more.last().0, more.last().1)
        }
    }
}

/// The command that a shorthand of the given kind stands for. It names the
/// kind as a key: with an object, which gets the kind as its type where it has
/// none, or with a text, which goes to its own field beside the other entries.
pub open spec fn long_form(kind: Seq<char>, entries: Seq<(Seq<char>, Tree)>) -> Option<Tree> {
    match json::lookup(entries, kind) {
        Some(Tree::Object(inner)) => Some(
            tools::prepared_args(
                Command { id: seq![], name: kind, args: Tree::Object(inner) },
            ),
        ),
        Some(Tree::Text(value)) => match target_field(kind) {
            Some(field) => Some(
                Tree::Object(
                    with_others(
                        json::inserted(
                            json::inserted(seq![], "type"@, Tree::Text(kind)),
                            field,
                            Tree::Text(value),
                        ),
                        entries,
                        kind,
                    ),
                ),
            ),
            None => None,
        },
        _ => None,
    }
}

/// Whether there is a text under `key`.
pub open spec fn has_text(entries: Seq<(Seq<char>, Tree)>, key: Seq<char>) -> bool {
    json::lookup(entries, key) matches Some(tree) && tree is Text
}

/// Whether there is a truth value under `key`.
pub open spec fn has_flag(entries: Seq<(Seq<char>, Tree)>, key: Seq<char>) -> bool {
    json::lookup(entries, key) matches Some(tree) && tree is Bool
}

/// Whether there is a number under `key` that `i64` can hold.
pub open spec fn has_number(entries: Seq<(Seq<char>, Tree)>, key: Seq<char>) -> bool {
    json::lookup(entries, key) matches Some(tree) && tree.as_i64() is Some
}

/// The kind of command that the fields belong to.
pub open spec fn inferred_kind(entries: Seq<(Seq<char>, Tree)>) -> Option<Seq<char>> {
    if has_text(entries, "file"@) {
        Some("readfile"@)
    } else if has_text(entries, "pattern"@) && has_text(entries, "path"@) {
        if has_text(entries, "type_filter"@) {
            Some("glob"@)
        } else {
            Some("rg"@)
        }
    } else if has_text(entries, "path"@) && has_number(entries, "levels"@) {
        Some("tree"@)
    } else if has_text(entries, "path"@) && (has_flag(entries, "long_format"@) || has_flag(
        entries,
        "all"@,
    )) {
        Some("ls"@)
    } else {
        None
    }
}

/// The first shorthand among the entries, in its long form.
pub open spec fn first_long_form(entries: Seq<(Seq<char>, Tree)>) -> Option<Tree> {
    if long_form("rg"@, entries) is Some {
        long_form("rg"@, entries)
    } else if long_form("readfile"@, entries) is Some {
        long_form("readfile"@, entries)
    } else if long_form("tree"@, entries) is Some {
        long_form("tree"@, entries)
    } else if long_form("ls"@, entries) is Some {
        long_form("ls"@, entries)
    } else {
        long_form("glob"@, entries)
    }
}

/// A command with its type: as it stands where it has one, else from a
/// shorthand, else as its fields tell.
pub open spec fn normal_command(command: Tree) -> Tree {
    match command {
        Tree::Object(entries) => if is_given(json::text_at(command, "type"@)) {
            command
        } else if first_long_form(entries) is Some {
            first_long_form(entries).unwrap()
        } else {
            match inferred_kind(entries) {
                Some(kind) => Tree::Object(json::inserted(entries, "type"@, Tree::Text(kind))),
                None => command,
            }
        },
        _ => command,
    }
}

/// Whether there is a text under `key`.
fn text_under(entries: &Vec<(String, Json)>, key: &str) -> (r: bool)
    ensures
        r == has_text(json::entry_trees(entries@), key@),
{
    match json::find_entry(entries, key) {
        Some(value) => value.as_str().is_some(),
        None => false,
    }
}

/// Whether there is a truth value under `key`.
fn flag_under(entries: &Vec<(String, Json)>, key: &str) -> (r: bool)
    ensures
        r == has_flag(json::entry_trees(entries@), key@),
{
    match json::find_entry(entries, key) {
        Some(value) => value.as_bool().is_some(),
        None => false,
    }
}

/// Whether there is a number under `key` that `i64` can hold.
fn number_under(entries: &Vec<(String, Json)>, key: &str) -> (r: bool)
    ensures
        r == has_number(json::entry_trees(entries@), key@),
{
    match json::find_entry(entries, key) {
        Some(value) => value.as_i64().is_some(),
        None => false,
    }
}

/// The kind of command that the fields belong to.
pub fn infer_restricted_exec_command_type(entries: &Vec<(String, Json)>) -> (r: Option<
    &'static str,
>)
    ensures
        text::opt_str_view(r) == inferred_kind(json::entry_trees(entries@)),
{
    if text_under(entries, "file") {
        return Some("readfile");
    }
    if text_under(entries, "pattern") && text_under(entries, "path") {
        if text_under(entries, "type_filter") {
            return Some("glob");
        }
        return Some("rg");
    }
    if text_under(entries, "path") && number_under(entries, "levels") {
        return Some("tree");
    }
    if text_under(entries, "path") && (flag_under(entries, "long_format") || flag_under(
        entries,
        "all",
    )) {
        return Some("ls");
    }
    None
}

/// Puts each of `more` into `entries`, but for the one under `left_out`.
fn insert_others(entries: &mut Vec<(String, Json)>, more: &Vec<(String, Json)>, left_out: &str)
    requires
        json::keys_in_order(json::entry_trees(old(entries)@)),
        forall|i: int|
            0 <= i < old(entries)@.len() ==> json::proper(
                (#[trigger] json::entry_trees(old(entries)@)[i]).1,
            ),
        forall|i: int|
            0 <= i < more@.len() ==> json::proper((#[trigger] json::entry_trees(more@)[i]).1),
    ensures
        json::entry_trees(final(entries)@) == with_others(
            json::entry_trees(old(entries)@),
            json::entry_trees(more@),
            left_out@,
        ),
        json::keys_in_order(json::entry_trees(final(entries)@)),
        forall|i: int|
            0 <= i < final(entries)@.len() ==> json::proper(
                (#[trigger] json::entry_trees(final(entries)@)[i]).1,
            ),
{
    let ghost start = json::entry_trees(entries@);
    let ghost all = json::entry_trees(more@);
    let mut i: usize = 0;
    assert(all.take(0) =~= seq![]);
    while i < more.len()
        invariant
            i <= more@.len(),
            all == json::entry_trees(more@),
            forall|k: int| 0 <= k < all.len() ==> json::proper((#[trigger] all[k]).1),
            json::entry_trees(entries@) == with_others(start, all.take(i as int), left_out@),
            json::keys_in_order(json::entry_trees(entries@)),
            forall|k: int|
                0 <= k < entries@.len() ==> json::proper(
                    (#[trigger] json::entry_trees(entries@)[k]).1,
                ),
        decreases more@.len() - i,
    {
        proof {
            assert(all.take(i + 1).drop_last() =~= all.take(i as int));
            assert(all.take(i + 1).last() == all[i as int]);
            assert(json::proper(all[i as int].1));
            json::lemma_inserted_values(
                json::entry_trees(entries@),
                all[i as int].0,
                all[i as int].1,
            );
        }
        if !text::same(&more[i].0, left_out) {
            json::insert(entries, &more[i].0, more[i].1.copied());
        }
        i += 1;
    }
    assert(all.take(i as int) =~= all);
}

/// The command that a shorthand of the given kind stands for.
pub fn normalize_shorthand_command(kind: &str, entries: &Vec<(String, Json)>) -> (r: Option<Json>)
    requires
        forall|i: int|
            0 <= i < entries@.len() ==> json::proper((#[trigger] json::entry_trees(entries@)[i]).1),
    ensures
        json::opt_tree(r) == long_form(kind@, json::entry_trees(entries@)),
        r matches Some(command) ==> json::proper(command@),
{
    let ghost all = json::entry_trees(entries@);
    proof {
        json::lemma_lookup_proper(all, kind@);
    }
    match json::find_entry(entries, kind) {
        Some(shorthand) => match shorthand {
            Json::Object(inner) => {
                proof {
                    json::lemma_object_view(*inner);
                }
                Some(tools::with_default_type(shorthand, kind))
            },
            Json::Text(value) => {
                let field = if text::same(kind, "rg") || text::same(kind, "glob") {
                    "pattern"
                } else if text::same(kind, "readfile") {
                    "file"
                } else if text::same(kind, "tree") || text::same(kind, "ls") {
                    "path"
                } else {
                    return None;
                };
                let mut out: Vec<(String, Json)> = Vec::new();
                assert(json::entry_trees(out@) =~= seq![]);
                let kind_value = json::text_value(kind);
                proof {
                    json::lemma_inserted_values(seq![], "type"@, kind_value@);
                }
                json::insert(&mut out, "type", kind_value);
                let target = json::text_value(value);
                proof {
                    json::lemma_inserted_values(json::entry_trees(out@), field@, target@);
                }
                json::insert(&mut out, field, target);
                insert_others(&mut out, entries, kind);
                proof {
                    json::lemma_object_view(out);
                    json::lemma_proper_object(json::entry_trees(out@));
                }
                Some(Json::Object(out))
            },
            _ => None,
        },
        None => None,
    }
}

/// The first shorthand among the entries, in its long form.
fn expand_shorthand(entries: &Vec<(String, Json)>) -> (r: Option<Json>)
    requires
        forall|i: int|
            0 <= i < entries@.len() ==> json::proper((#[trigger] json::entry_trees(entries@)[i]).1),
    ensures
        json::opt_tree(r) == first_long_form(json::entry_trees(entries@)),
        r matches Some(command) ==> json::proper(command@),
{
    if let Some(command) = normalize_shorthand_command("rg", entries) {
        return Some(command);
    }
    if let Some(command) = normalize_shorthand_command("readfile", entries) {
        return Some(command);
    }
    if let Some(command) = normalize_shorthand_command("tree", entries) {
        return Some(command);
    }
    if let Some(command) = normalize_shorthand_command("ls", entries) {
        return Some(command);
    }
    normalize_shorthand_command("glob", entries)
}

/// A command with its type.
pub fn normalize_restricted_exec_command(command: &Json) -> (r: Json)
    requires
        json::proper(command@),
    ensures
        r@ == normal_command(command@),
        json::proper(r@),
{
    match command {
        Json::Object(entries) => {
            proof {
                json::lemma_object_view(*entries);
                json::lemma_object_proper(json::entry_trees(entries@));
            }
            if given(command.text_at("type")) {
                return command.copied();
            }
            if let Some(expanded) = expand_shorthand(entries) {
                return expanded;
            }
            match infer_restricted_exec_command_type(entries) {
                Some(kind) => {
                    let mut out = json::copied_entries(entries);
                    let kind_value = json::text_value(kind);
                    proof {
                        json::lemma_inserted_values(
                            json::entry_trees(out@),
                            "type"@,
                            kind_value@,
                        );
                    }
                    json::insert(&mut out, "type", kind_value);
                    proof {
                        json::lemma_object_view(out);
                        json::lemma_proper_object(json::entry_trees(out@));
                    }
                    Json::Object(out)
                },
                None => command.copied(),
            }
        },
        _ => command.copied(),
    }
}

/// A command with a type of its own stays as it is.
pub proof fn law_typed_command_is_kept(command: Tree)
    requires
        is_given(json::text_at(command, "type"@)),
    ensures
        normal_command(command) == command,
{
}

/// The commands that are there under the first `n` command keys.
pub open spec fn given_commands(args: Tree, n: nat) -> Seq<Command>
    decreases n,
{
    if n == 0 {
        seq![]
    } else {
        let before = given_commands(args, (n - 1) as nat);
        let key = tool_schema::command_key(n);
        match args.get(key) {
            Some(command) => before.push(
                Command { id: key, name: key, args: normal_command(command) },
            ),
            None => before,
        }
    }
}

/// The command that stands for none.
pub open spec fn missing_command() -> Command {
    Command {
        id: "command1"@,
        name: "command1"@,
        args: Tree::Object(
            json::object_of(
                seq![
                    ("type"@, Tree::Text(""@)),
                    ("error"@, Tree::Text("missing restricted_exec command object"@)),
                ],
            ),
        ),
    }
}

/// The commands that the arguments ask for, at most `max_commands` and at most
/// eight; a command that says what is missing where there are none.
pub open spec fn commands_of(args: Tree, max_commands: nat) -> Seq<Command> {
    let found = given_commands(args, protocol::command_limit(max_commands as int) as nat);
    if found.len() == 0 {
        seq![missing_command()]
    } else {
        found
    }
}

/// Whether one of the first `n` commands has a type.
pub open spec fn any_typed(args: Tree, n: nat) -> bool {
    exists|i: nat|
        1 <= i <= n && {
            &&& #[trigger] args.get(tool_schema::command_key(i)) is Some
            &&& is_given(
                json::text_at(
                    normal_command(args.get(tool_schema::command_key(i)).unwrap()),
                    "type"@,
                ),
            )
        }
}

/// The command that stands for none.
fn missing_restricted_exec_command() -> (r: Vec<InstantContextToolCall>)
    ensures
        tools::commands_view(r@) == seq![missing_command()],
        tools::proper_commands(tools::commands_view(r@)),
{
    let mut pairs: Vec<(String, Json)> = Vec::new();
    pairs.push(json::pair("type", json::text_value("")));
    pairs.push(json::pair("error", json::text_value("missing restricted_exec command object")));
    assert(json::entry_trees(pairs@) =~= seq![
        ("type"@, Tree::Text(""@)),
        ("error"@, Tree::Text("missing restricted_exec command object"@)),
    ]);
    let args = json::object(pairs);
    let mut out: Vec<InstantContextToolCall> = Vec::new();
    out.push(
        InstantContextToolCall { id: text::copied("command1"), name: text::copied("command1"), args },
    );
    assert(tools::commands_view(out@) =~= seq![missing_command()]);
    out
}

/// The commands that the arguments ask for.
pub fn restricted_exec_commands(args: &Json, max_commands: usize) -> (r: Vec<
    InstantContextToolCall,
>)
    requires
        json::proper(args@),
    ensures
        tools::commands_view(r@) == commands_of(args@, max_commands as nat),
        tools::proper_commands(tools::commands_view(r@)),
{
    let limit = protocol::limit_commands(max_commands);
    let mut out: Vec<InstantContextToolCall> = Vec::new();
    let mut n: usize = 0;
    assert(tools::commands_view(out@) =~= seq![]);
    while n < limit
        invariant
            n <= limit <= 8,
            json::proper(args@),
            tools::commands_view(out@) == given_commands(args@, n as nat),
            tools::proper_commands(tools::commands_view(out@)),
        decreases limit - n,
    {
        n += 1;
        let key = tool_schema::command_key_text(n);
        if let Some(command) = args.get(&key) {
            let ghost before = tools::commands_view(out@);
            let call = InstantContextToolCall {
                id: key.clone(),
                name: key,
                args: normalize_restricted_exec_command(command),
            };
            let ghost shown = call@;
            out.push(call);
            assert(tools::commands_view(out@) =~= before.push(shown));
        }
    }
    if out.len() == 0 {
        missing_restricted_exec_command()
    } else {
        out
    }
}

/// Whether one of the commands that the arguments ask for has a type.
pub fn has_valid_restricted_exec_command(args: &Json, max_commands: usize) -> (r: bool)
    requires
        json::proper(args@),
    ensures
        r == any_typed(args@, protocol::command_limit(max_commands as int) as nat),
{
    let limit = protocol::limit_commands(max_commands);
    let mut n: usize = 0;
    while n < limit
        invariant
            n <= limit <= 8,
            json::proper(args@),
            !any_typed(args@, n as nat),
            limit == protocol::command_limit(max_commands as int),
        decreases limit - n,
    {
        n += 1;
        let key = tool_schema::command_key_text(n);
        if let Some(command) = args.get(&key) {
            let normal = normalize_restricted_exec_command(command);
            if given(normal.text_at("type")) {
                assert(args@.get(tool_schema::command_key(n as nat)) is Some);
                return true;
            }
        }
    }
    false
}

/// A step always has a command, and never more than it may have.
pub proof fn law_step_has_commands(args: Tree, max_commands: nat)
    ensures
        1 <= commands_of(args, max_commands).len() <= protocol::command_limit(max_commands as int)
            <= 8,
{
    lemma_given_count(args, protocol::command_limit(max_commands as int) as nat);
}

/// There are no more commands than keys.
proof fn lemma_given_count(args: Tree, n: nat)
    ensures
        given_commands(args, n).len() <= n,
    decreases n,
{
    if n > 0 {
        lemma_given_count(args, (n - 1) as nat);
    }
}

/// What the model is told of the results of a step: the output of every
/// command that no longer waits.
pub open spec fn results_text(updates: Seq<Update>) -> Seq<char>
    decreases updates.len(),
{
    if updates.len() == 0 {
        seq![]
    } else {
        let before = results_text(updates.drop_last());
        let update = updates.last();
        if update.status == ToolExecutionStatus::Pending {
            before
        } else {
            before + update.tool_call_id + "_result:\n"@ + update.output + "\n"@
        }
    }
}

/// What the model is told of the results of a step.
pub fn format_restricted_exec_results(updates: &Vec<InstantContextToolUpdate>) -> (r: String)
    ensures
        r@ == results_text(tools::updates_view(updates@)),
{
    let ghost all = tools::updates_view(updates@);
    let mut out = String::new();
    let mut i: usize = 0;
    assert(all.take(0) =~= seq![]);
    assert(out@ =~= seq![]);
    while i < updates.len()
        invariant
            i <= updates@.len(),
            all == tools::updates_view(updates@),
            out@ == results_text(all.take(i as int)),
        decreases updates@.len() - i,
    {
        proof {
            assert(all.take(i + 1).drop_last() =~= all.take(i as int));
            assert(all.take(i + 1).last() == updates@[i as int]@);
        }
        if updates[i].status != ToolExecutionStatus::Pending {
            out.append(&updates[i].tool_call_id);
            out.append("_result:\n");
            out.append(&updates[i].output);
            out.append("\n");
        }
        i += 1;
    }
    assert(all.take(i as int) =~= all);
    out
}

/// Every command that is given under one of the allowed keys is run, in the order of the
/// keys and under its key. Where none is given, one stands in their place that says so.
pub proof fn law_every_given_command_is_run(args: Tree, max_commands: nat)
    ensures
        ({
            let allowed = vstd::math::max(1, vstd::math::min(max_commands as int, 8));
            let given = Seq::new(allowed as nat, |i: int| (i + 1) as nat).filter(
                |n: nat| args.get("command"@ + text::decimal(n)) is Some,
            );
            let found = commands_of(args, max_commands);
            &&& given.len() > 0 ==> found == given.map_values(
                |n: nat|
                    Command {
                        id: "command"@ + text::decimal(n),
                        name: "command"@ + text::decimal(n),
                        args: normal_command(args.get("command"@ + text::decimal(n)).unwrap()),
                    },
            )
            &&& given.len() == 0 ==> found.len() == 1 && found[0].id == "command1"@
                && found[0].args.get("error"@) == Some(
                Tree::Text("missing restricted_exec command object"@),
            )
        }),
{
    let allowed = vstd::math::max(1, vstd::math::min(max_commands as int, 8));
    lemma_given_commands(args, allowed as nat);
    let given = Seq::new(allowed as nat, |i: int| (i + 1) as nat).filter(
        |n: nat| args.get("command"@ + text::decimal(n)) is Some,
    );
    if given.len() == 0 {
        let pairs = seq![
            ("type"@, Tree::Text(""@)),
            ("error"@, Tree::Text("missing restricted_exec command object"@)),
        ];
        json::law_object_holds_its_pairs(pairs, "error"@);
        assert(pairs[1].0 == "error"@);
    }
}

/// The given commands are found key by key.
proof fn lemma_given_commands(args: Tree, n: nat)
    ensures
        given_commands(args, n) == Seq::new(n, |i: int| (i + 1) as nat).filter(
            |k: nat| args.get("command"@ + text::decimal(k)) is Some,
        ).map_values(
            |k: nat|
                Command {
                    id: "command"@ + text::decimal(k),
                    name: "command"@ + text::decimal(k),
                    args: normal_command(args.get("command"@ + text::decimal(k)).unwrap()),
                },
        ),
    decreases n,
{
    reveal(Seq::filter);
    let wanted = |k: nat| args.get("command"@ + text::decimal(k)) is Some;
    let made = |k: nat|
        Command {
            id: "command"@ + text::decimal(k),
            name: "command"@ + text::decimal(k),
            args: normal_command(args.get("command"@ + text::decimal(k)).unwrap()),
        };
    let all = Seq::new(n, |i: int| (i + 1) as nat);
    if n == 0 {
        assert(all.filter(wanted).map_values(made) =~= seq![]);
    } else {
        lemma_given_commands(args, (n - 1) as nat);
        let front = Seq::new((n - 1) as nat, |i: int| (i + 1) as nat);
        assert(all.drop_last() =~= front);
        assert(all.last() == n);
        if wanted(n) {
            assert(front.filter(wanted).push(n).map_values(made) =~= front.filter(
                wanted,
            ).map_values(made).push(made(n)));
        }
    }
}

/// The other entries of a command go over what is there, but for the one that is left out.
pub proof fn law_other_entries_are_kept(
    entries: Seq<(Seq<char>, Tree)>,
    more: Seq<(Seq<char>, Tree)>,
    left_out: Seq<char>,
    key: Seq<char>,
)
    requires
        forall|i: int, j: int|
            0 <= i < j < more.len() ==> (#[trigger] more[i]).0 != (#[trigger] more[j]).0,
    ensures
        json::lookup(with_others(entries, more, left_out), key) == (if key != left_out
            && json::lookup(more, key) is Some {
            json::lookup(more, key)
        } else {
            json::lookup(entries, key)
        }),
    decreases more.len(),
{
    json::law_first_entry_is_found(more, key);
    if more.len() > 0 {
        let rest = more.drop_last();
        let last = more[more.len() - 1];
        assert forall|i: int, j: int| 0 <= i < j < rest.len() implies (#[trigger] rest[i]).0 != (
        #[trigger] rest[j]).0 by {
            assert(rest[i] == more[i] && rest[j] == more[j]);
        }
        law_other_entries_are_kept(entries, rest, left_out, key);
        json::law_first_entry_is_found(rest, key);
        json::law_insert_then_lookup(with_others(entries, rest, left_out), last.0, last.1, key);
        if last.0 == key {
            assert forall|j: int| 0 <= j < rest.len() implies (#[trigger] rest[j]).0 != key by {
                assert(rest[j] == more[j]);
                assert(more[j].0 != more[more.len() - 1].0);
            }
        } else if exists|j: int| 0 <= j < rest.len() && (#[trigger] rest[j]).0 == key {
            let j = choose|j: int| 0 <= j < rest.len() && (#[trigger] rest[j]).0 == key;
            assert forall|k: int| 0 <= k < j implies (#[trigger] rest[k]).0 != key by {
                assert(rest[k] == more[k] && rest[j] == more[j]);
                assert(more[k].0 != more[j].0);
            }
            assert forall|k: int| 0 <= k < j implies (#[trigger] more[k]).0 != key by {
                assert(rest[k].0 != key);
            }
            assert(more[j] == rest[j]);
        } else {
            assert forall|j: int| 0 <= j < more.len() implies (#[trigger] more[j]).0 != key by {
                if j < rest.len() {
                    assert(rest[j] == more[j]);
                }
            }
        }
    }
}

/// The field that a short command fills: what is searched for, what is read, or what is
/// listed.
pub open spec fn short_field(kind: Seq<char>, field: Seq<char>) -> bool {
    ||| kind == "rg"@ && field == "pattern"@
    ||| kind == "glob"@ && field == "pattern"@
    ||| kind == "readfile"@ && field == "file"@
    ||| kind == "tree"@ && field == "path"@
    ||| kind == "ls"@ && field == "path"@
}

/// A command that is written as its kind with an object is that object, of that kind; one
/// written as its kind with a text has the text in the field that the kind is about, and
/// its other entries beside it.
pub proof fn law_short_commands_are_expanded(
    kind: Seq<char>,
    field: Seq<char>,
    entries: Seq<(Seq<char>, Tree)>,
    key: Seq<char>,
)
    requires
        short_field(kind, field),
        forall|i: int, j: int|
            0 <= i < j < entries.len() ==> (#[trigger] entries[i]).0 != (#[trigger] entries[j]).0,
    ensures
        json::lookup(entries, kind) matches Some(Tree::Object(inner)) ==> {
            &&& long_form(kind, entries) matches Some(command) && {
                &&& json::lookup(inner, "type"@) is None ==> command.get("type"@) == Some(
                    Tree::Text(kind),
                )
                &&& key != "type"@ || json::lookup(inner, key) is Some ==> command.get(key)
                    == json::lookup(inner, key)
            }
        },
        json::lookup(entries, kind) matches Some(Tree::Text(value)) ==> {
            &&& long_form(kind, entries) matches Some(command) && {
                &&& json::lookup(entries, "type"@) is None ==> command.get("type"@) == Some(
                    Tree::Text(kind),
                )
                &&& json::lookup(entries, field) is None ==> command.get(field) == Some(
                    Tree::Text(value),
                )
                &&& key != kind && json::lookup(entries, key) is Some ==> command.get(key)
                    == json::lookup(entries, key)
            }
        },
        json::lookup(entries, kind) is None ==> long_form(kind, entries) is None,
{
    lemma_kind_names();
    match json::lookup(entries, kind) {
        Some(Tree::Object(inner)) => {
            json::law_insert_then_lookup(inner, "type"@, Tree::Text(kind), key);
        },
        Some(Tree::Text(value)) => {
            let one = json::inserted(seq![], "type"@, Tree::Text(kind));
            let both = json::inserted(one, field, Tree::Text(value));
            json::law_insert_then_lookup(seq![], "type"@, Tree::Text(kind), key);
            json::law_insert_then_lookup(one, field, Tree::Text(value), "type"@);
            json::law_insert_then_lookup(one, field, Tree::Text(value), field);
            law_other_entries_are_kept(both, entries, kind, "type"@);
            law_other_entries_are_kept(both, entries, kind, field);
            law_other_entries_are_kept(both, entries, kind, key);
        },
        _ => {},
    }
}

/// The names of kinds and fields differ.
proof fn lemma_kind_names()
    ensures
        "type"@ != "pattern"@,
        "type"@ != "file"@,
        "type"@ != "path"@,
        "rg"@ != "type"@,
        "rg"@ != "glob"@,
        "rg"@ != "readfile"@,
        "rg"@ != "tree"@,
        "rg"@ != "ls"@,
        "glob"@ != "readfile"@,
        "glob"@ != "tree"@,
        "glob"@ != "ls"@,
        "readfile"@ != "tree"@,
        "readfile"@ != "ls"@,
        "tree"@ != "ls"@,
        "rg"@ != "pattern"@,
        "glob"@ != "pattern"@,
        "readfile"@ != "file"@,
        "tree"@ != "path"@,
        "ls"@ != "path"@,
{
    reveal_strlit("type");
    reveal_strlit("pattern");
    reveal_strlit("file");
    reveal_strlit("path");
    reveal_strlit("rg");
    reveal_strlit("glob");
    reveal_strlit("readfile");
    reveal_strlit("tree");
    reveal_strlit("ls");
    assert("type"@[0] == 't' && "pattern"@[0] == 'p' && "file"@[0] == 'f' && "path"@[0] == 'p');
    assert("rg"@[0] == 'r' && "glob"@[0] == 'g' && "readfile"@[0] == 'r' && "tree"@[0] == 't'
        && "ls"@[0] == 'l');
    assert("rg"@.len() == 2 && "readfile"@.len() == 8);
}

/// An object without a type that holds a short command is that command; the kinds are tried
/// in the order `rg`, `readfile`, `tree`, `ls`, `glob`.
pub proof fn law_short_command_is_taken(entries: Seq<(Seq<char>, Tree)>)
    requires
        !is_given(json::text_at(Tree::Object(entries), "type"@)),
    ensures
        long_form("rg"@, entries) matches Some(command) ==> normal_command(Tree::Object(entries))
            == command,
        long_form("rg"@, entries) is None ==> (long_form("readfile"@, entries) matches Some(command)
            ==> normal_command(Tree::Object(entries)) == command),
        long_form("rg"@, entries) is None && long_form("readfile"@, entries) is None ==> (long_form(
            "tree"@,
            entries,
        ) matches Some(command) ==> normal_command(Tree::Object(entries)) == command),
        long_form("rg"@, entries) is None && long_form("readfile"@, entries) is None && long_form(
            "tree"@,
            entries,
        ) is None ==> (long_form("ls"@, entries) matches Some(command) ==> normal_command(
            Tree::Object(entries),
        ) == command),
        long_form("rg"@, entries) is None && long_form("readfile"@, entries) is None && long_form(
            "tree"@,
            entries,
        ) is None && long_form("ls"@, entries) is None ==> (long_form("glob"@, entries) matches Some(
            command,
        ) ==> normal_command(Tree::Object(entries)) == command),
{
}

/// An object without a type and without a short command is of the kind that its fields are
/// those of, and keeps them all: with a file it reads, with a pattern and a path it searches,
/// or finds paths where it asks for a type of file, with a path and a number of levels it
/// draws a tree, and with a path and a flag of a listing it lists.
pub proof fn law_kind_is_told_by_the_fields(command: Tree, key: Seq<char>)
    requires
        command matches Tree::Object(entries) && !is_given(json::text_at(command, "type"@))
            && long_form("rg"@, entries) is None && long_form("readfile"@, entries) is None
            && long_form("tree"@, entries) is None && long_form("ls"@, entries) is None
            && long_form("glob"@, entries) is None,
    ensures
        ({
            let file = command.get("file"@) matches Some(tree) && tree is Text;
            let pattern = command.get("pattern"@) matches Some(tree) && tree is Text;
            let path = command.get("path"@) matches Some(tree) && tree is Text;
            let kind = command.get("type_filter"@) matches Some(tree) && tree is Text;
            let levels = command.get("levels"@) matches Some(tree) && tree.as_i64() is Some;
            let long = command.get("long_format"@) matches Some(tree) && tree is Bool;
            let all = command.get("all"@) matches Some(tree) && tree is Bool;
            let normal = normal_command(command);
            &&& key != "type"@ ==> normal.get(key) == command.get(key)
            &&& file ==> normal.get("type"@) == Some(Tree::Text("readfile"@))
            &&& !file && pattern && path && kind ==> normal.get("type"@) == Some(
                Tree::Text("glob"@),
            )
            &&& !file && pattern && path && !kind ==> normal.get("type"@) == Some(Tree::Text("rg"@))
            &&& !file && !pattern && path && levels ==> normal.get("type"@) == Some(
                Tree::Text("tree"@),
            )
            &&& !file && !pattern && path && !levels && (long || all) ==> normal.get("type"@)
                == Some(Tree::Text("ls"@))
            &&& !file && (!path || !pattern && !levels && !long && !all) ==> normal == command
        }),
{
    if let Tree::Object(entries) = command {
        if let Some(kind) = inferred_kind(entries) {
            json::law_insert_then_lookup(entries, "type"@, Tree::Text(kind), key);
        }
    }
}

/// What is no object is not changed.
pub proof fn law_other_commands_are_kept(command: Tree)
    requires
        !(command is Object),
    ensures
        normal_command(command) == command,
{
}

/// The results of a step are handed on one after the other, each under the identifier of
/// its command, with all of its output. What still waits is not.
pub proof fn law_every_result_is_handed_on(
    a: Seq<Update>,
    b: Seq<Update>,
    update: Update,
)
    ensures
        results_text(a + b) == results_text(a) + results_text(b),
        results_text(seq![update]) == (if update.status is Pending {
            seq![]
        } else {
            update.tool_call_id + "_result:\n"@ + update.output + "\n"@
        }),
    decreases b.len(),
{
    assert(seq![update].drop_last() =~= seq![]);
    assert(results_text(seq![update].drop_last()) =~= seq![]);
    assert(seq![update].last() == update);
    assert(results_text(seq![update]) =~= if update.status is Pending {
        seq![]
    } else {
        update.tool_call_id + "_result:\n"@ + update.output + "\n"@
    });
    if b.len() == 0 {
        assert(a + b =~= a);
    } else {
        law_every_result_is_handed_on(a, b.drop_last(), update);
        assert((a + b).drop_last() =~= a + b.drop_last());
        assert(results_text(a + b) =~= results_text(a) + results_text(b));
    }
}

/// A call gives a command where one of the allowed keys holds one whose kind is known.
pub proof fn law_valid_command_is_seen(args: Tree, limit: nat, n: nat, command: Tree, kind: Seq<char>)
    requires
        1 <= n <= limit,
        args.get("command"@ + text::decimal(n)) == Some(command),
        normal_command(command).get("type"@) == Some(Tree::Text(kind)),
        text::trimmed(kind).len() > 0,
    ensures
        any_typed(args, limit),
{
    assert(args.get(tool_schema::command_key(n)) is Some);
}

} // verus!
