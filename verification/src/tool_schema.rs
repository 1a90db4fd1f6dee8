//! The definitions of the tools that the model may call.
use crate::json::{self, Json, Tree};
use crate::protocol;
use crate::text;
use vstd::prelude::*;

verus! {

/// A list of texts.
pub open spec fn texts_tree(items: Seq<Seq<char>>) -> Tree {
    Tree::Array(Seq::new(items.len(), |i: int| Tree::Text(items[i])))
}

/// A parameter of the given kind.
pub open spec fn parameter_tree(kind: Seq<char>, description: Seq<char>) -> Tree {
    Tree::Object(
        json::object_of(
            seq![("type"@, Tree::Text(kind)), ("description"@, Tree::Text(description))],
        ),
    )
}

/// A parameter that has one fixed value.
pub open spec fn constant_tree(value: Seq<char>, description: Seq<char>) -> Tree {
    Tree::Object(
        json::object_of(
            seq![
                ("type"@, Tree::Text("string"@)),
                ("const"@, Tree::Text(value)),
                ("description"@, Tree::Text(description)),
            ],
        ),
    )
}

/// A parameter that is a list of texts.
pub open spec fn text_list_tree(description: Seq<char>) -> Tree {
    Tree::Object(
        json::object_of(
            seq![
                ("type"@, Tree::Text("array"@)),
                (
                    "items"@,
                    Tree::Object(json::object_of(seq![("type"@, Tree::Text("string"@))])),
                ),
                ("description"@, Tree::Text(description)),
            ],
        ),
    )
}

/// A parameter that is one of several texts.
pub open spec fn choice_tree(choices: Seq<Seq<char>>, description: Seq<char>) -> Tree {
    Tree::Object(
        json::object_of(
            seq![
                ("type"@, Tree::Text("string"@)),
                ("enum"@, texts_tree(choices)),
                ("description"@, Tree::Text(description)),
            ],
        ),
    )
}

/// A form that a command can have: its parameters, and which of them it needs.
pub open spec fn form_tree(parameters: Seq<(Seq<char>, Tree)>, required: Seq<Seq<char>>) -> Tree {
    Tree::Object(
        json::object_of(
            seq![
                ("properties"@, Tree::Object(json::object_of(parameters))),
                ("required"@, texts_tree(required)),
            ],
        ),
    )
}

/// A list of texts.
fn texts_value(items: &Vec<&str>) -> (r: Json)
    ensures
        r@ == texts_tree(Seq::new(items@.len(), |i: int| items@[i]@)),
        json::proper(r@),
{
    let mut out: Vec<Json> = Vec::new();
    let mut i: usize = 0;
    while i < items.len()
        invariant
            i <= items@.len(),
            out@.len() == i,
            forall|k: int|
                0 <= k < i ==> (#[trigger] out@[k])@ == Tree::Text(items@[k]@) && json::proper(
                    out@[k]@,
                ),
        decreases items@.len() - i,
    {
        out.push(json::text_value(items[i]));
        i += 1;
    }
    let ghost given = Seq::new(items@.len(), |i: int| items@[i]@);
    assert(json::trees(out@) =~= Seq::new(given.len(), |i: int| Tree::Text(given[i])));
    json::array(out)
}

fn parameter(kind: &str, description: &str) -> (r: Json)
    ensures
        r@ == parameter_tree(kind@, description@),
        json::proper(r@),
{
    let pairs = vec![
        json::pair("type", json::text_value(kind)),
        json::pair("description", json::text_value(description)),
    ];
    assert(json::entry_trees(pairs@) =~= seq![
        ("type"@, Tree::Text(kind@)),
        ("description"@, Tree::Text(description@)),
    ]);
    json::object(pairs)
}

fn constant(value: &str, description: &str) -> (r: Json)
    ensures
        r@ == constant_tree(value@, description@),
        json::proper(r@),
{
    let pairs = vec![
        json::pair("type", json::text_value("string")),
        json::pair("const", json::text_value(value)),
        json::pair("description", json::text_value(description)),
    ];
    assert(json::entry_trees(pairs@) =~= seq![
        ("type"@, Tree::Text("string"@)),
        ("const"@, Tree::Text(value@)),
        ("description"@, Tree::Text(description@)),
    ]);
    json::object(pairs)
}

fn text_list(description: &str) -> (r: Json)
    ensures
        r@ == text_list_tree(description@),
        json::proper(r@),
{
    let inner = vec![json::pair("type", json::text_value("string"))];
    assert(json::entry_trees(inner@) =~= seq![("type"@, Tree::Text("string"@))]);
    let items = json::object(inner);
    let pairs = vec![
        json::pair("type", json::text_value("array")),
        json::pair("items", items),
        json::pair("description", json::text_value(description)),
    ];
    assert(json::entry_trees(pairs@) =~= seq![
        ("type"@, Tree::Text("array"@)),
        ("items"@, Tree::Object(json::object_of(seq![("type"@, Tree::Text("string"@))]))),
        ("description"@, Tree::Text(description@)),
    ]);
    json::object(pairs)
}

fn choice(choices: &Vec<&str>, description: &str) -> (r: Json)
    ensures
        r@ == choice_tree(Seq::new(choices@.len(), |i: int| choices@[i]@), description@),
        json::proper(r@),
{
    let pairs = vec![
        json::pair("type", json::text_value("string")),
        json::pair("enum", texts_value(choices)),
        json::pair("description", json::text_value(description)),
    ];
    assert(json::entry_trees(pairs@) =~= seq![
        ("type"@, Tree::Text("string"@)),
        ("enum"@, texts_tree(Seq::new(choices@.len(), |i: int| choices@[i]@))),
        ("description"@, Tree::Text(description@)),
    ]);
    json::object(pairs)
}

fn form(parameters: Vec<(String, Json)>, required: &Vec<&str>) -> (r: Json)
    requires
        forall|i: int| 0 <= i < parameters@.len() ==> json::proper((#[trigger] parameters@[i]).1@),
    ensures
        r@ == form_tree(
            json::entry_trees(parameters@),
            Seq::new(required@.len(), |i: int| required@[i]@),
        ),
        json::proper(r@),
{
    let ghost given = json::entry_trees(parameters@);
    let properties = json::object(parameters);
    let pairs = vec![
        json::pair("properties", properties),
        json::pair("required", texts_value(required)),
    ];
    assert(json::entry_trees(pairs@) =~= seq![
        ("properties"@, Tree::Object(json::object_of(given))),
        ("required"@, texts_tree(Seq::new(required@.len(), |i: int| required@[i]@))),
    ]);
    json::object(pairs)
}

/// The form of a `rg` command.
pub open spec fn rg_tree() -> Tree {
    form_tree(
        seq![
            ("type"@, constant_tree("rg"@, "Search for patterns in files using ripgrep."@)),
            ("pattern"@, parameter_tree("string"@, "The regex pattern to search for."@)),
            ("path"@, parameter_tree("string"@, "The path to search in (file or directory)."@)),
            ("include"@, text_list_tree("File patterns to include in the search."@)),
            ("exclude"@, text_list_tree("File patterns to exclude from the search."@)),
        ],
        seq!["type"@, "pattern"@, "path"@],
    )
}

/// The form of a `rg` command.
fn rg_form() -> (r: Json)
    ensures
        r@ == rg_tree(),
        json::proper(r@),
{
    let parameters = vec![
        json::pair("type", constant("rg", "Search for patterns in files using ripgrep.")),
        json::pair("pattern", parameter("string", "The regex pattern to search for.")),
        json::pair("path", parameter("string", "The path to search in (file or directory).")),
        json::pair("include", text_list("File patterns to include in the search.")),
        json::pair("exclude", text_list("File patterns to exclude from the search.")),
    ];
    assert(json::entry_trees(parameters@) =~= seq![
        ("type"@, constant_tree("rg"@, "Search for patterns in files using ripgrep."@)),
        ("pattern"@, parameter_tree("string"@, "The regex pattern to search for."@)),
        ("path"@, parameter_tree("string"@, "The path to search in (file or directory)."@)),
        ("include"@, text_list_tree("File patterns to include in the search."@)),
        ("exclude"@, text_list_tree("File patterns to exclude from the search."@)),
    ]);
    let required: Vec<&str> = vec!["type", "pattern", "path"];
    assert(Seq::new(required@.len(), |i: int| required@[i]@) =~= seq!["type"@, "pattern"@, "path"@]);
    form(parameters, &required)
}

/// The form of a `readfile` command.
pub open spec fn readfile_tree() -> Tree {
    form_tree(
        seq![
            ("type"@, constant_tree("readfile"@, "Read contents of a file with optional line range."@)),
            ("file"@, parameter_tree("string"@, "Path to the file to read."@)),
            ("start_line"@, parameter_tree("integer"@, "Starting line number (1-indexed)."@)),
            ("end_line"@, parameter_tree("integer"@, "Ending line number (1-indexed)."@)),
        ],
        seq!["type"@, "file"@],
    )
}

/// The form of a `readfile` command.
fn readfile_form() -> (r: Json)
    ensures
        r@ == readfile_tree(),
        json::proper(r@),
{
    let parameters = vec![
        json::pair("type", constant("readfile", "Read contents of a file with optional line range.")),
        json::pair("file", parameter("string", "Path to the file to read.")),
        json::pair("start_line", parameter("integer", "Starting line number (1-indexed).")),
        json::pair("end_line", parameter("integer", "Ending line number (1-indexed).")),
    ];
    assert(json::entry_trees(parameters@) =~= seq![
        ("type"@, constant_tree("readfile"@, "Read contents of a file with optional line range."@)),
        ("file"@, parameter_tree("string"@, "Path to the file to read."@)),
        ("start_line"@, parameter_tree("integer"@, "Starting line number (1-indexed)."@)),
        ("end_line"@, parameter_tree("integer"@, "Ending line number (1-indexed)."@)),
    ]);
    let required: Vec<&str> = vec!["type", "file"];
    assert(Seq::new(required@.len(), |i: int| required@[i]@) =~= seq!["type"@, "file"@]);
    form(parameters, &required)
}

/// The form of a `tree` command.
pub open spec fn tree_tree() -> Tree {
    form_tree(
        seq![
            ("type"@, constant_tree("tree"@, "Display directory structure as a tree."@)),
            ("path"@, parameter_tree("string"@, "Path to the directory to display."@)),
            ("levels"@, parameter_tree("integer"@, "Number of directory levels to show."@)),
        ],
        seq!["type"@, "path"@],
    )
}

/// The form of a `tree` command.
fn tree_form() -> (r: Json)
    ensures
        r@ == tree_tree(),
        json::proper(r@),
{
    let parameters = vec![
        json::pair("type", constant("tree", "Display directory structure as a tree.")),
        json::pair("path", parameter("string", "Path to the directory to display.")),
        json::pair("levels", parameter("integer", "Number of directory levels to show.")),
    ];
    assert(json::entry_trees(parameters@) =~= seq![
        ("type"@, constant_tree("tree"@, "Display directory structure as a tree."@)),
        ("path"@, parameter_tree("string"@, "Path to the directory to display."@)),
        ("levels"@, parameter_tree("integer"@, "Number of directory levels to show."@)),
    ]);
    let required: Vec<&str> = vec!["type", "path"];
    assert(Seq::new(required@.len(), |i: int| required@[i]@) =~= seq!["type"@, "path"@]);
    form(parameters, &required)
}

/// The form of a `ls` command.
pub open spec fn ls_tree() -> Tree {
    form_tree(
        seq![
            ("type"@, constant_tree("ls"@, "List files in a directory."@)),
            ("path"@, parameter_tree("string"@, "Path to the directory to list."@)),
            ("long_format"@, parameter_tree("boolean"@, "Use long format."@)),
            ("all"@, parameter_tree("boolean"@, "Show all files, including hidden files."@)),
        ],
        seq!["type"@, "path"@],
    )
}

/// The form of a `ls` command.
fn ls_form() -> (r: Json)
    ensures
        r@ == ls_tree(),
        json::proper(r@),
{
    let parameters = vec![
        json::pair("type", constant("ls", "List files in a directory.")),
        json::pair("path", parameter("string", "Path to the directory to list.")),
        json::pair("long_format", parameter("boolean", "Use long format.")),
        json::pair("all", parameter("boolean", "Show all files, including hidden files.")),
    ];
    assert(json::entry_trees(parameters@) =~= seq![
        ("type"@, constant_tree("ls"@, "List files in a directory."@)),
        ("path"@, parameter_tree("string"@, "Path to the directory to list."@)),
        ("long_format"@, parameter_tree("boolean"@, "Use long format."@)),
        ("all"@, parameter_tree("boolean"@, "Show all files, including hidden files."@)),
    ]);
    let required: Vec<&str> = vec!["type", "path"];
    assert(Seq::new(required@.len(), |i: int| required@[i]@) =~= seq!["type"@, "path"@]);
    form(parameters, &required)
}

/// The form of a `glob` command.
pub open spec fn glob_tree() -> Tree {
    form_tree(
        seq![
            ("type"@, constant_tree("glob"@, "Find files matching a glob pattern."@)),
            ("pattern"@, parameter_tree("string"@, "Glob pattern to match."@)),
            ("path"@, parameter_tree("string"@, "Path to search in."@)),
            ("type_filter"@, choice_tree(seq!["file"@, "directory"@, "all"@], "Type of files to match."@)),
        ],
        seq!["type"@, "pattern"@, "path"@],
    )
}

/// The form of a `glob` command.
fn glob_form() -> (r: Json)
    ensures
        r@ == glob_tree(),
        json::proper(r@),
{
    let choices: Vec<&str> = vec!["file", "directory", "all"];
    assert(Seq::new(choices@.len(), |i: int| choices@[i]@) =~= seq!["file"@, "directory"@, "all"@]);
    let parameters = vec![
        json::pair("type", constant("glob", "Find files matching a glob pattern.")),
        json::pair("pattern", parameter("string", "Glob pattern to match.")),
        json::pair("path", parameter("string", "Path to search in.")),
        json::pair("type_filter", choice(&choices, "Type of files to match.")),
    ];
    assert(json::entry_trees(parameters@) =~= seq![
        ("type"@, constant_tree("glob"@, "Find files matching a glob pattern."@)),
        ("pattern"@, parameter_tree("string"@, "Glob pattern to match."@)),
        ("path"@, parameter_tree("string"@, "Path to search in."@)),
        ("type_filter"@, choice_tree(seq!["file"@, "directory"@, "all"@], "Type of files to match."@)),
    ]);
    let required: Vec<&str> = vec!["type", "pattern", "path"];
    assert(Seq::new(required@.len(), |i: int| required@[i]@) =~= seq!["type"@, "pattern"@, "path"@]);
    form(parameters, &required)
}

/// What a command can be.
pub open spec fn command_tree() -> Tree {
    Tree::Object(
        json::object_of(
            seq![
                ("type"@, Tree::Text("object"@)),
                (
                    "description"@,
                    Tree::Text(
                        "Command to execute. Must be one of: rg, readfile, tree, ls, or glob."@,
                    ),
                ),
                (
                    "oneOf"@,
                    Tree::Array(
                        seq![rg_tree(), readfile_tree(), tree_tree(), ls_tree(), glob_tree()],
                    ),
                ),
            ],
        ),
    )
}

/// What a command can be.
fn command_schema() -> (r: Json)
    ensures
        r@ == command_tree(),
        json::proper(r@),
{
    let forms = vec![rg_form(), readfile_form(), tree_form(), ls_form(), glob_form()];
    assert(json::trees(forms@) =~= seq![
        rg_tree(),
        readfile_tree(),
        tree_tree(),
        ls_tree(),
        glob_tree(),
    ]);
    let one_of = json::array(forms);
    let pairs = vec![
        json::pair("type", json::text_value("object")),
        json::pair(
            "description",
            json::text_value(
                "Command to execute. Must be one of: rg, readfile, tree, ls, or glob.",
            ),
        ),
        json::pair("oneOf", one_of),
    ];
    assert(json::entry_trees(pairs@) =~= seq![
        ("type"@, Tree::Text("object"@)),
        (
            "description"@,
            Tree::Text("Command to execute. Must be one of: rg, readfile, tree, ls, or glob."@),
        ),
        (
            "oneOf"@,
            Tree::Array(seq![rg_tree(), readfile_tree(), tree_tree(), ls_tree(), glob_tree()]),
        ),
    ]);
    json::object(pairs)
}

/// The key of the command with the given number.
pub open spec fn command_key(number: nat) -> Seq<char> {
    "command"@ + text::decimal(number)
}

/// The key of the command with the given number.
pub fn command_key_text(number: usize) -> (r: String)
    ensures
        r@ == command_key(number as nat),
{
    let mut key = text::copied("command");
    let digits = text::decimal_usize(number);
    key.append(&digits);
    key
}

/// The commands of a step, each under its key.
pub open spec fn commands_tree(count: int) -> Tree {
    Tree::Object(
        json::object_of(
            Seq::new(count as nat, |i: int| (command_key((i + 1) as nat), command_tree())),
        ),
    )
}

/// The commands of a step, each under its key.
fn commands_value(count: usize) -> (r: Json)
    ensures
        r@ == commands_tree(count as int),
        json::proper(r@),
{
    let mut pairs: Vec<(String, Json)> = Vec::new();
    let mut i: usize = 0;
    while i < count
        invariant
            i <= count,
            pairs@.len() == i,
            forall|k: int|
                0 <= k < i ==> (#[trigger] pairs@[k]).0@ == command_key((k + 1) as nat)
                    && pairs@[k].1@ == command_tree() && json::proper(pairs@[k].1@),
        decreases count - i,
    {
        pairs.push((command_key_text(i + 1), command_schema()));
        i += 1;
    }
    assert(json::entry_trees(pairs@) =~= Seq::new(
        count as nat,
        |i: int| (command_key((i + 1) as nat), command_tree()),
    ));
    json::object(pairs)
}

/// A tool: its name, what it does, its parameters and those that it needs.
pub open spec fn tool_tree(
    name: Seq<char>,
    description: Seq<char>,
    properties: Tree,
    required: Seq<Seq<char>>,
) -> Tree {
    Tree::Object(
        json::object_of(
            seq![
                ("type"@, Tree::Text("function"@)),
                (
                    "function"@,
                    Tree::Object(
                        json::object_of(
                            seq![
                                ("name"@, Tree::Text(name)),
                                ("description"@, Tree::Text(description)),
                                (
                                    "parameters"@,
                                    Tree::Object(
                                        json::object_of(
                                            seq![
                                                ("type"@, Tree::Text("object"@)),
                                                ("properties"@, properties),
                                                ("required"@, texts_tree(required)),
                                            ],
                                        ),
                                    ),
                                ),
                            ],
                        ),
                    ),
                ),
            ],
        ),
    )
}

/// A tool: its name, what it does, its parameters and the one that it needs.
fn tool(name: &str, description: &str, properties: Json, required: &str) -> (r: Json)
    requires
        json::proper(properties@),
    ensures
        r@ == tool_tree(name@, description@, properties@, seq![required@]),
        json::proper(r@),
{
    let needed: Vec<&str> = vec![required];
    assert(Seq::new(needed@.len(), |i: int| needed@[i]@) =~= seq![required@]);
    let ghost shown = properties@;
    let parameters = vec![
        json::pair("type", json::text_value("object")),
        json::pair("properties", properties),
        json::pair("required", texts_value(&needed)),
    ];
    assert(json::entry_trees(parameters@) =~= seq![
        ("type"@, Tree::Text("object"@)),
        ("properties"@, shown),
        ("required"@, texts_tree(seq![required@])),
    ]);
    let parameters_value = json::object(parameters);
    let ghost parameters_tree = parameters_value@;
    let function = vec![
        json::pair("name", json::text_value(name)),
        json::pair("description", json::text_value(description)),
        json::pair("parameters", parameters_value),
    ];
    assert(json::entry_trees(function@) =~= seq![
        ("name"@, Tree::Text(name@)),
        ("description"@, Tree::Text(description@)),
        ("parameters"@, parameters_tree),
    ]);
    let function_value = json::object(function);
    let ghost function_tree = function_value@;
    let pairs = vec![
        json::pair("type", json::text_value("function")),
        json::pair("function", function_value),
    ];
    assert(json::entry_trees(pairs@) =~= seq![
        ("type"@, Tree::Text("function"@)),
        ("function"@, function_tree),
    ]);
    json::object(pairs)
}

/// The tools that the model may call: `restricted_exec`, with as many commands
/// as a step may have, and `answer`.
pub open spec fn tools_tree(max_commands: int) -> Tree {
    Tree::Array(
        seq![
            tool_tree(
                "restricted_exec"@,
                "Execute restricted commands (rg, readfile, tree, ls, glob) in parallel."@,
                commands_tree(protocol::command_limit(max_commands)),
                seq!["command1"@],
            ),
            tool_tree(
                "answer"@,
                "Final answer with relevant files and line ranges."@,
                Tree::Object(
                    json::object_of(
                        seq![
                            (
                                "answer"@,
                                parameter_tree("string"@, "The final answer in XML format."@),
                            ),
                        ],
                    ),
                ),
                seq!["answer"@],
            ),
        ],
    )
}

/// The tools that the model may call, as a value.
pub fn tool_definitions(max_commands: usize) -> (r: Json)
    ensures
        r@ == tools_tree(max_commands as int),
        json::proper(r@),
{
    let commands = commands_value(protocol::limit_commands(max_commands));
    let exec_tool = tool(
        "restricted_exec",
        "Execute restricted commands (rg, readfile, tree, ls, glob) in parallel.",
        commands,
        "command1",
    );
    let answer_pairs = vec![
        json::pair("answer", parameter("string", "The final answer in XML format.")),
    ];
    assert(json::entry_trees(answer_pairs@) =~= seq![
        ("answer"@, parameter_tree("string"@, "The final answer in XML format."@)),
    ]);
    let answer_tool = tool(
        "answer",
        "Final answer with relevant files and line ranges.",
        json::object(answer_pairs),
        "answer",
    );
    let ghost first = exec_tool@;
    let ghost second = answer_tool@;
    let tools = vec![exec_tool, answer_tool];
    assert(json::trees(tools@) =~= seq![first, second]);
    json::array(tools)
}

/// The tools that the model may call, as JSON text.
pub fn get_tool_definitions(max_commands: usize) -> (r: String)
    ensures
        r@ == json::json_print(tools_tree(max_commands as int)),
{
    json::print(&tool_definitions(max_commands))
}

/// The model may give a command under each number from one up to the limit, and under no
/// other.
pub proof fn law_commands_up_to_the_limit_are_offered(max_commands: int, number: nat)
    ensures
        ({
            let limit = vstd::math::max(1, vstd::math::min(max_commands, 8));
            let offered = commands_tree(protocol::command_limit(max_commands)).get(
                "command"@ + text::decimal(number),
            );
            &&& 1 <= number <= limit ==> offered == Some(command_tree())
            &&& number < 1 || number > limit ==> offered is None
        }),
{
    let limit = protocol::command_limit(max_commands);
    let key = "command"@ + text::decimal(number);
    let pairs = Seq::new(limit as nat, |i: int| (command_key((i + 1) as nat), command_tree()));
    json::law_object_holds_its_pairs(pairs, key);
    assert forall|j: int| 0 <= j < pairs.len() && j + 1 != number implies (#[trigger] pairs[j]).0
        != key by {
        let other = command_key((j + 1) as nat);
        if other == key {
            let n = "command"@.len() as int;
            assert(other.skip(n) =~= text::decimal((j + 1) as nat));
            assert(key.skip(n) =~= text::decimal(number));
            text::law_decimal_reads_back((j + 1) as nat);
            text::law_decimal_reads_back(number);
        }
    }
    if 1 <= number <= limit {
        assert(pairs[number - 1].0 == key);
    }
}

} // verus!
