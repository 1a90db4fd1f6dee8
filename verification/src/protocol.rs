//! The requests to the model and the prompts that they carry.
use crate::json::{self, Json, Tree};
use crate::protobuf::{self, ProtobufEncoder};
use crate::text;
use crate::types::WS_APP;
use vstd::prelude::*;
use vstd::utf8::encode_utf8;

verus! {

/// Who speaks in a message.
#[derive(Debug, Clone, Copy, PartialEq, Eq, Structural)]
pub enum MessageRole {
    User,
    Assistant,
    Tool,
    System,
}

/// The number that stands for a role on the wire.
pub open spec fn role_number(role: MessageRole) -> u64 {
    match role {
        MessageRole::User => 1,
        MessageRole::Assistant => 2,
        MessageRole::Tool => 4,
        MessageRole::System => 5,
    }
}

impl MessageRole {
    /// The number that stands for the role on the wire.
    pub fn wire_value(self) -> (r: u64)
        ensures
            r == role_number(self),
    {
        match self {
            MessageRole::User => 1,
            MessageRole::Assistant => 2,
            MessageRole::Tool => 4,
            MessageRole::System => 5,
        }
    }
}

/// A message of the conversation with the model.
#[derive(Debug, Clone)]
pub struct ChatMessage {
    pub role: MessageRole,
    pub content: String,
    pub tool_call_id: Option<String>,
    pub tool_name: Option<String>,
    pub tool_args_json: Option<String>,
    pub ref_call_id: Option<String>,
}

/// What a message says.
pub struct Message {
    pub role: MessageRole,
    pub content: Seq<char>,
    pub tool_call_id: Option<Seq<char>>,
    pub tool_name: Option<Seq<char>>,
    pub tool_args_json: Option<Seq<char>>,
    pub ref_call_id: Option<Seq<char>>,
}

impl View for ChatMessage {
    type V = Message;

    open spec fn view(&self) -> Message {
        Message {
            role: self.role,
            content: self.content@,
            tool_call_id: text::opt_view(self.tool_call_id),
            tool_name: text::opt_view(self.tool_name),
            tool_args_json: text::opt_view(self.tool_args_json),
            ref_call_id: text::opt_view(self.ref_call_id),
        }
    }
}

/// What the messages of a conversation say.
pub open spec fn messages_view(messages: Seq<ChatMessage>) -> Seq<Message> {
    Seq::new(messages.len(), |i: int| messages[i]@)
}

/// A message without tool data.
pub open spec fn simple_message(role: MessageRole, content: Seq<char>) -> Message {
    Message {
        role,
        content,
        tool_call_id: None,
        tool_name: None,
        tool_args_json: None,
        ref_call_id: None,
    }
}

impl ChatMessage {
    /// A message without tool data.
    pub fn simple(role: MessageRole, content: &str) -> (r: ChatMessage)
        ensures
            r@ == simple_message(role, content@),
    {
        ChatMessage {
            role,
            content: text::copied(content),
            tool_call_id: None,
            tool_name: None,
            tool_args_json: None,
            ref_call_id: None,
        }
    }
}

/// What a request says of the client that sends it.
#[derive(Debug, Clone)]
pub struct ClientInfo {
    pub app_version: String,
    pub ls_version: String,
    pub os: String,
    pub arch: String,
    pub cpu_count: usize,
}

/// Whether a client runs on Windows.
pub open spec fn is_windows(client: ClientInfo) -> bool {
    client.os@ == "windows"@
}

/// Whether a client runs on Windows.
pub fn runs_windows(client: &ClientInfo) -> (r: bool)
    ensures
        r == is_windows(*client),
{
    text::same(&client.os, "windows")
}

/// A text field on the wire.
pub open spec fn text_field(field: u64, value: Seq<char>) -> Seq<u8> {
    protobuf::bytes_field(field, encode_utf8(value))
}

/// The name of the kernel that goes with an operating system.
pub open spec fn system_name(os: Seq<char>) -> Seq<char> {
    if os == "macos"@ {
        "Darwin"@
    } else if os == "windows"@ {
        "Windows_NT"@
    } else {
        "Linux"@
    }
}

/// What a request says of the operating system.
pub open spec fn os_tree(os: Seq<char>, arch: Seq<char>) -> Tree {
    Tree::Object(
        json::object_of(
            seq![
                ("Os"@, Tree::Text(os)),
                ("Arch"@, Tree::Text(arch)),
                ("Release"@, Tree::Text("1.0"@)),
                ("Version"@, Tree::Text("1.0"@)),
                ("Machine"@, Tree::Text(arch)),
                ("Nodename"@, Tree::Text("localhost"@)),
                ("Sysname"@, Tree::Text(system_name(os))),
                ("ProductVersion"@, Tree::Text(""@)),
            ],
        ),
    )
}

/// What a request says of the processor.
pub open spec fn cpu_tree(cpu_count: int) -> Tree {
    Tree::Object(
        json::object_of(
            seq![
                ("NumSockets"@, Tree::Integer(1)),
                ("NumCores"@, Tree::Integer(cpu_count)),
                ("NumThreads"@, Tree::Integer(cpu_count)),
                ("VendorID"@, Tree::Text(""@)),
                ("Family"@, Tree::Text("0"@)),
                ("Model"@, Tree::Text("0"@)),
                ("ModelName"@, Tree::Text("Unknown CPU"@)),
                ("Memory"@, Tree::Integer(17179869184)),
            ],
        ),
    )
}

/// The metadata of a request.
pub open spec fn metadata_bytes(api_key: Seq<char>, jwt: Seq<char>, client: ClientInfo) -> Seq<u8> {
    text_field(1, WS_APP@) + text_field(2, client.app_version@) + text_field(3, api_key)
        + text_field(4, "zh-cn"@) + text_field(
        5,
        json::json_print(os_tree(client.os@, client.arch@)),
    ) + text_field(7, client.ls_version@) + text_field(
        8,
        json::json_print(cpu_tree(client.cpu_count as int)),
    ) + text_field(12, WS_APP@) + text_field(21, jwt) + protobuf::bytes_field(30, seq![0u8, 1u8])
}

/// The description of the operating system.
fn os_value(os: &str, arch: &str) -> (r: Json)
    ensures
        r@ == os_tree(os@, arch@),
        json::proper(r@),
{
    let sysname = if text::same(os, "macos") {
        "Darwin"
    } else if text::same(os, "windows") {
        "Windows_NT"
    } else {
        "Linux"
    };
    let pairs = vec![
        json::pair("Os", json::text_value(os)),
        json::pair("Arch", json::text_value(arch)),
        json::pair("Release", json::text_value("1.0")),
        json::pair("Version", json::text_value("1.0")),
        json::pair("Machine", json::text_value(arch)),
        json::pair("Nodename", json::text_value("localhost")),
        json::pair("Sysname", json::text_value(sysname)),
        json::pair("ProductVersion", json::text_value("")),
    ];
    assert(json::entry_trees(pairs@) =~= seq![
        ("Os"@, Tree::Text(os@)),
        ("Arch"@, Tree::Text(arch@)),
        ("Release"@, Tree::Text("1.0"@)),
        ("Version"@, Tree::Text("1.0"@)),
        ("Machine"@, Tree::Text(arch@)),
        ("Nodename"@, Tree::Text("localhost"@)),
        ("Sysname"@, Tree::Text(system_name(os@))),
        ("ProductVersion"@, Tree::Text(""@)),
    ]);
    json::object(pairs)
}

/// The description of the processor.
fn cpu_value(cpu_count: usize) -> (r: Json)
    ensures
        r@ == cpu_tree(cpu_count as int),
        json::proper(r@),
{
    let pairs = vec![
        json::pair("NumSockets", Json::Integer(1)),
        json::pair("NumCores", Json::Integer(cpu_count as i128)),
        json::pair("NumThreads", Json::Integer(cpu_count as i128)),
        json::pair("VendorID", json::text_value("")),
        json::pair("Family", json::text_value("0")),
        json::pair("Model", json::text_value("0")),
        json::pair("ModelName", json::text_value("Unknown CPU")),
        json::pair("Memory", Json::Integer(17179869184)),
    ];
    assert(json::entry_trees(pairs@) =~= seq![
        ("NumSockets"@, Tree::Integer(1)),
        ("NumCores"@, Tree::Integer(cpu_count as int)),
        ("NumThreads"@, Tree::Integer(cpu_count as int)),
        ("VendorID"@, Tree::Text(""@)),
        ("Family"@, Tree::Text("0"@)),
        ("Model"@, Tree::Text("0"@)),
        ("ModelName"@, Tree::Text("Unknown CPU"@)),
        ("Memory"@, Tree::Integer(17179869184)),
    ]);
    json::object(pairs)
}

/// The metadata of a request.
pub fn build_metadata(api_key: &str, jwt: &str, client: &ClientInfo) -> (r: ProtobufEncoder)
    ensures
        r@ == metadata_bytes(api_key@, jwt@, *client),
{
    let mut meta = ProtobufEncoder::new();
    meta.write_string(1, WS_APP);
    meta.write_string(2, &client.app_version);
    meta.write_string(3, api_key);
    meta.write_string(4, "zh-cn");
    let os_text = json::print(&os_value(&client.os, &client.arch));
    meta.write_string(5, &os_text);
    meta.write_string(7, &client.ls_version);
    let cpu_text = json::print(&cpu_value(client.cpu_count));
    meta.write_string(8, &cpu_text);
    meta.write_string(12, WS_APP);
    meta.write_string(21, jwt);
    let tail: [u8; 2] = [0, 1];
    assert(tail@ =~= seq![0u8, 1u8]);
    meta.write_bytes(30, &tail);
    assert(meta@ =~= metadata_bytes(api_key@, jwt@, *client));
    meta
}

/// The tool call that a message makes, on the wire.
pub open spec fn tool_call_bytes(message: Message) -> Seq<u8> {
    match (message.tool_call_id, message.tool_name, message.tool_args_json) {
        (Some(id), Some(name), Some(args)) => protobuf::bytes_field(
            6,
            text_field(1, id) + text_field(2, name) + text_field(3, args),
        ),
        _ => seq![],
    }
}

/// A message on the wire. The tool call stands only where it is complete.
pub open spec fn chat_message_bytes(message: Message) -> Seq<u8> {
    protobuf::varint_field(2, role_number(message.role)) + text_field(3, message.content)
        + tool_call_bytes(message) + match message.ref_call_id {
        Some(id) => text_field(7, id),
        None => seq![],
    }
}

/// A message on the wire.
pub fn build_chat_message(message: &ChatMessage) -> (r: ProtobufEncoder)
    ensures
        r@ == chat_message_bytes(message@),
{
    let mut msg = ProtobufEncoder::new();
    msg.write_varint(2, message.role.wire_value());
    msg.write_string(3, &message.content);
    let ghost start = msg@;
    if let Some(id) = &message.tool_call_id {
        if let Some(name) = &message.tool_name {
            if let Some(args) = &message.tool_args_json {
                let mut tc = ProtobufEncoder::new();
                tc.write_string(1, id);
                tc.write_string(2, name);
                tc.write_string(3, args);
                assert(tc@ =~= text_field(1, id@) + text_field(2, name@) + text_field(3, args@));
                msg.write_message(6, &tc);
            }
        }
    }
    assert(msg@ =~= start + tool_call_bytes(message@));
    if let Some(ref_call_id) = &message.ref_call_id {
        msg.write_string(7, ref_call_id);
    }
    assert(msg@ =~= chat_message_bytes(message@));
    msg
}

/// The messages of a conversation on the wire, one field each.
pub open spec fn conversation_bytes(messages: Seq<Message>) -> Seq<u8>
    decreases messages.len(),
{
    if messages.len() == 0 {
        seq![]
    } else {
        conversation_bytes(messages.drop_last()) + protobuf::bytes_field(
            2,
            chat_message_bytes(messages.last()),
        )
    }
}

/// A request on the wire: its metadata, the conversation, the tools.
#[verifier::opaque]
pub open spec fn request_bytes(
    api_key: Seq<char>,
    jwt: Seq<char>,
    messages: Seq<Message>,
    tool_defs: Seq<char>,
    client: ClientInfo,
) -> Seq<u8> {
    protobuf::bytes_field(1, metadata_bytes(api_key, jwt, client)) + conversation_bytes(messages)
        + text_field(3, tool_defs)
}

/// A request on the wire.
pub fn build_request(
    api_key: &str,
    jwt: &str,
    messages: &[ChatMessage],
    tool_defs: &str,
    client: &ClientInfo,
) -> (r: Vec<u8>)
    ensures
        r@ == request_bytes(api_key@, jwt@, messages_view(messages@), tool_defs@, *client),
{
    let mut req = ProtobufEncoder::new();
    let meta = build_metadata(api_key, jwt, client);
    req.write_message(1, &meta);
    let ghost head = req@;
    let ghost all = messages_view(messages@);
    let mut i: usize = 0;
    assert(all.take(0) =~= seq![]);
    assert(req@ =~= head + conversation_bytes(all.take(0)));
    while i < messages.len()
        invariant
            i <= messages@.len(),
            all == messages_view(messages@),
            req@ == head + conversation_bytes(all.take(i as int)),
        decreases messages@.len() - i,
    {
        let msg = build_chat_message(&messages[i]);
        req.write_message(2, &msg);
        proof {
            assert(all.take(i + 1).drop_last() =~= all.take(i as int));
            assert(all.take(i + 1).last() == all[i as int]);
            assert(req@ =~= head + conversation_bytes(all.take(i + 1)));
        }
        i += 1;
    }
    assert(all.take(i as int) =~= all);
    req.write_string(3, tool_defs);
    proof {
        reveal(request_bytes);
        assert(req@ =~= request_bytes(api_key@, jwt@, all, tool_defs@, *client));
    }
    req.to_bytes()
}

/// The prompt that opens a conversation, with places for the two limits.
pub const SYSTEM_PROMPT_TEMPLATE: &'static str = r#"Search the codebase based on the user's question and provide a concise, accurate set of file paths and relevant line ranges containing all information needed to understand and correctly solve the issue.

# OBJECTIVE

* Return a minimal but precise set of relevant files that include the implementations, definitions, callers, configuration, tests, and entry points needed to plan or verify changes.
* Prioritize complete semantic blocks, such as functions, classes, implementations, or modules. If a block is too large, trim it as needed while preserving meaning.
* Provide enough code-related context to ensure the relevant mechanisms can be correctly understood.
* Exclude irrelevant code snippets to avoid polluting the context, but do not reduce the result set merely for the sake of reduction.
* Draw conclusions from the actual code. If a command fails or the returned evidence is insufficient, try different tool queries to obtain the answer.

# ENVIRONMENT

* Working directory: /codebase. Make sure to run commands in this directory, not `.`.
* Allowed sub-commands:

  * rg: Search for patterns in files.
  * readfile: Read the contents of a file, optionally within a line range.
  * tree: Display the directory structure as a tree.
  * ls: List files in a directory.
  * glob: Find files matching a glob pattern.

# TOOL USE GUIDELINES

* Use at most {max_commands} `restricted_exec` commands. Each command `type` must be one of `rg`, `readfile`, `tree`, `ls`, or `glob`.
* Each command object must put the command type in the top-level `type` field. Do not wrap commands as `{"rg": {...}}`, `{"readfile": "path"}`, or omit `type`.
* You have at most {max_turns} turns to interact with the environment by calling tools, so parallel commands are encouraged.
* `restricted_exec` arguments must have this shape:

[TOOL_CALLS]restricted_exec[ARGS]{
  "command1": {
    "type": "rg",
    "pattern": "Controller",
    "path": "/codebase/src",
    "include": ["**/*.py"]
  },
  "command2": {
    "type": "readfile",
    "file": "/codebase/src/controller.py",
    "start_line": 1,
    "end_line": 200
  },
  "command3": {
    "type": "tree",
    "path": "/codebase/src",
    "levels": 2
  },
  "command4": {
    "type": "ls",
    "path": "/codebase/src",
    "all": false
  },
  "command5": {
    "type": "glob",
    "pattern": "**/*.rs",
    "path": "/codebase/src",
    "type_filter": "file"
  }
}

# ANSWER FORMAT

Strictly follow this format, including the tags.

* Use the answer tool with XML rooted at `ANSWER`.
* Each `file` element must have a `path` attribute.
* Each file must contain one or more inclusive `range` elements.
* Example output inside the answer tool argument:

<ANSWER><file path="/codebase/src/auth.rs"><range>10-80</range></file></ANSWER>

# NO RESULTS POLICY

If, after thorough searching, you are confident that no relevant files exist for the given query, such as when the requested function, class, or concept does not exist in the codebase, you MUST return an empty `ANSWER`:

<ANSWER></ANSWER>

Do NOT return irrelevant files, such as entry points or configuration files, merely to provide some output. An empty answer is always better than a misleading one.
"#;

/// The prompt that asks for the answer when no turn is left.
pub const FINAL_FORCE_ANSWER: &'static str =
    "No search turns remain. You MUST call the answer tool now, even if the answer is incomplete.";

/// What stands in place of messages that were left out.
pub const TRIM_NOTICE: &'static str =
    "[Prior search rounds omitted to reduce payload. Provide your best answer based on available context.]";

/// The number of commands that a step may have.
pub open spec fn command_limit(max_commands: int) -> int {
    if max_commands < 1 {
        1
    } else if max_commands > 8 {
        8
    } else {
        max_commands
    }
}

/// The number of commands that a step may have.
pub fn limit_commands(max_commands: usize) -> (r: usize)
    ensures
        r == command_limit(max_commands as int),
{
    if max_commands < 1 {
        1
    } else if max_commands > 8 {
        8
    } else {
        max_commands
    }
}

/// The prompt that opens a conversation.
pub open spec fn system_prompt(max_turns: nat, max_commands: int) -> Seq<char> {
    text::replaced(
        text::replaced(
            SYSTEM_PROMPT_TEMPLATE@,
            "{max_commands}"@,
            text::decimal(command_limit(max_commands) as nat),
        ),
        "{max_turns}"@,
        text::decimal(max_turns),
    )
}

/// The prompt that opens a conversation. It does not depend on the number of results.
pub fn build_system_prompt(max_turns: usize, max_commands: usize, _max_results: usize) -> (r: String)
    ensures
        r@ == system_prompt(max_turns as nat, max_commands as int),
{
    let commands = text::decimal_usize(limit_commands(max_commands));
    let turns = text::decimal_usize(max_turns);
    proof {
        reveal_strlit("{max_commands}");
        reveal_strlit("{max_turns}");
    }
    let filled = text::replace(SYSTEM_PROMPT_TEMPLATE, "{max_commands}", &commands);
    text::replace(&filled, "{max_turns}", &turns)
}

/// The prompt says as many commands as a step may have, whatever it is asked for.
pub proof fn law_prompt_limits_commands(max_turns: nat, max_commands: int)
    ensures
        system_prompt(max_turns, max_commands) == system_prompt(
            max_turns,
            command_limit(max_commands),
        ),
{
}

/// No place for a limit is left in the prompt.
pub proof fn law_prompt_has_no_places_left(max_turns: nat, max_commands: int)
    ensures
        !text::contains(system_prompt(max_turns, max_commands), "{max_commands}"@),
        !text::contains(system_prompt(max_turns, max_commands), "{max_turns}"@),
        !text::contains(system_prompt(max_turns, max_commands), "{max_results}"@),
{
    let commands = text::decimal(command_limit(max_commands) as nat);
    let turns = text::decimal(max_turns);
    let filled = text::replaced(SYSTEM_PROMPT_TEMPLATE@, "{max_commands}"@, commands);
    let prompt = system_prompt(max_turns, max_commands);
    reveal_strlit("{max_commands}");
    reveal_strlit("{max_turns}");
    reveal_strlit("{max_results}");
    text::lemma_decimal_digits(command_limit(max_commands) as nat);
    text::lemma_decimal_digits(max_turns);
    if text::contains(prompt, "{max_turns}"@) {
        text::lemma_replaced_keeps(filled, "{max_turns}"@, turns, "{max_turns}"@);
    }
    if text::contains(prompt, "{max_commands}"@) {
        text::lemma_replaced_keeps(filled, "{max_turns}"@, turns, "{max_commands}"@);
        text::lemma_replaced_keeps(
            SYSTEM_PROMPT_TEMPLATE@,
            "{max_commands}"@,
            commands,
            "{max_commands}"@,
        );
    }
    if text::contains(prompt, "{max_results}"@) {
        text::lemma_replaced_keeps(filled, "{max_turns}"@, turns, "{max_results}"@);
        text::lemma_replaced_keeps(
            SYSTEM_PROMPT_TEMPLATE@,
            "{max_commands}"@,
            commands,
            "{max_results}"@,
        );
        lemma_template_braces();
        let template = SYSTEM_PROMPT_TEMPLATE@;
        let at = choose|at: int| text::occurs_at(template, "{max_results}"@, at);
        let part = template.subrange(at, at + 13);
        assert(part[0] == template[at]);
        assert(part[5] == template[at + 5]);
    }
}

/// Behind a brace of the template no `r` is the fifth character.
#[verifier::spinoff_prover]
#[verifier::rlimit(100)]
proof fn lemma_template_braces()
    ensures
        forall|i: int|
            0 <= i < SYSTEM_PROMPT_TEMPLATE@.len() - 5 && SYSTEM_PROMPT_TEMPLATE@[i] == '{'
                ==> #[trigger] SYSTEM_PROMPT_TEMPLATE@[i + 5] != 'r',
{
    reveal_strlit(
        r#"Search the codebase based on the user's question and provide a concise, accurate set of file paths and relevant line ranges containing all information needed to understand and correctly solve the issue.

# OBJECTIVE

* Return a minimal but precise set of relevant files that include the implementations, definitions, callers, configuration, tests, and entry points needed to plan or verify changes.
* Prioritize complete semantic blocks, such as functions, classes, implementations, or modules. If a block is too large, trim it as needed while preserving meaning.
* Provide enough code-related context to ensure the relevant mechanisms can be correctly understood.
* Exclude irrelevant code snippets to avoid polluting the context, but do not reduce the result set merely for the sake of reduction.
* Draw conclusions from the actual code. If a command fails or the returned evidence is insufficient, try different tool queries to obtain the answer.

# ENVIRONMENT

* Working directory: /codebase. Make sure to run commands in this directory, not `.`.
* Allowed sub-commands:

  * rg: Search for patterns in files.
  * readfile: Read the contents of a file, optionally within a line range.
  * tree: Display the directory structure as a tree.
  * ls: List files in a directory.
  * glob: Find files matching a glob pattern.

# TOOL USE GUIDELINES

* Use at most {max_commands} `restricted_exec` commands. Each command `type` must be one of `rg`, `readfile`, `tree`, `ls`, or `glob`.
* Each command object must put the command type in the top-level `type` field. Do not wrap commands as `{"rg": {...}}`, `{"readfile": "path"}`, or omit `type`.
* You have at most {max_turns} turns to interact with the environment by calling tools, so parallel commands are encouraged.
* `restricted_exec` arguments must have this shape:

[TOOL_CALLS]restricted_exec[ARGS]{
  "command1": {
    "type": "rg",
    "pattern": "Controller",
    "path": "/codebase/src",
    "include": ["**/*.py"]
  },
  "command2": {
    "type": "readfile",
    "file": "/codebase/src/controller.py",
    "start_line": 1,
    "end_line": 200
  },
  "command3": {
    "type": "tree",
    "path": "/codebase/src",
    "levels": 2
  },
  "command4": {
    "type": "ls",
    "path": "/codebase/src",
    "all": false
  },
  "command5": {
    "type": "glob",
    "pattern": "**/*.rs",
    "path": "/codebase/src",
    "type_filter": "file"
  }
}

# ANSWER FORMAT

Strictly follow this format, including the tags.

* Use the answer tool with XML rooted at `ANSWER`.
* Each `file` element must have a `path` attribute.
* Each file must contain one or more inclusive `range` elements.
* Example output inside the answer tool argument:

<ANSWER><file path="/codebase/src/auth.rs"><range>10-80</range></file></ANSWER>

# NO RESULTS POLICY

If, after thorough searching, you are confident that no relevant files exist for the given query, such as when the requested function, class, or concept does not exist in the codebase, you MUST return an empty `ANSWER`:

<ANSWER></ANSWER>

Do NOT return irrelevant files, such as entry points or configuration files, merely to provide some output. An empty answer is always better than a misleading one.
"#,
    );
}

/// A conversation cut down: its first two and its last two messages, with a
/// notice between them. One of at most four messages stays as it is.
pub open spec fn trimmed_messages(messages: Seq<Message>) -> Seq<Message> {
    if messages.len() <= 4 {
        messages
    } else {
        let n = messages.len();
        seq![
            messages[0],
            messages[1],
            simple_message(MessageRole::User, TRIM_NOTICE@),
            messages[n - 2],
            messages[n - 1],
        ]
    }
}

/// Cuts a conversation of more than four messages down to its first two and
/// its last two, with a notice between them. Tells whether it did.
pub fn trim_messages(messages: &mut Vec<ChatMessage>) -> (r: bool)
    ensures
        r == (old(messages)@.len() > 4),
        messages_view(final(messages)@) == trimmed_messages(messages_view(old(messages)@)),
{
    if messages.len() <= 4 {
        return false;
    }
    let ghost before = messages@;
    let last = messages.pop();
    let second_last = messages.pop();
    messages.truncate(2);
    messages.push(ChatMessage::simple(MessageRole::User, TRIM_NOTICE));
    if let Some(message) = second_last {
        messages.push(message);
    }
    if let Some(message) = last {
        messages.push(message);
    }
    assert(messages_view(messages@) =~= trimmed_messages(messages_view(before)));
    true
}

/// Trimming keeps the first two and the last two messages of a conversation
/// that has as many.
pub proof fn law_trim_keeps_head_and_tail(messages: Seq<Message>)
    requires
        messages.len() >= 4,
    ensures
        trimmed_messages(messages).len() <= 5,
        trimmed_messages(messages).take(2) == messages.take(2),
        trimmed_messages(messages).skip(trimmed_messages(messages).len() - 2) == messages.skip(
            messages.len() - 2,
        ),
{
    let cut = trimmed_messages(messages);
    assert(cut.take(2) =~= messages.take(2));
    assert(cut.skip(cut.len() - 2) =~= messages.skip(messages.len() - 2));
}

/// Trimming a trimmed conversation changes nothing.
pub proof fn law_trim_is_idempotent(messages: Seq<Message>)
    ensures
        trimmed_messages(trimmed_messages(messages)) == trimmed_messages(messages),
{
    assert(trimmed_messages(trimmed_messages(messages)) =~= trimmed_messages(messages));
}

/// The messages stand in a request one after the other, in their order, each in a field of its
/// own.
pub proof fn law_messages_are_sent_one_by_one(
    before: Seq<Message>,
    message: Message,
    behind: Seq<Message>,
)
    ensures
        conversation_bytes(before + seq![message] + behind) == conversation_bytes(before)
            + protobuf::bytes_field(2, chat_message_bytes(message)) + conversation_bytes(behind),
    decreases behind.len(),
{
    let all = before + seq![message] + behind;
    if behind.len() == 0 {
        assert(all =~= before.push(message));
        assert(before.push(message).drop_last() =~= before);
        assert(conversation_bytes(behind) == Seq::<u8>::empty());
    } else {
        law_messages_are_sent_one_by_one(before, message, behind.drop_last());
        assert(all.drop_last() =~= before + seq![message] + behind.drop_last());
        assert(all.last() == behind.last());
    }
}

/// What a message says, and the call that it answers, can be read back from it.
pub proof fn law_message_reads_back(role: MessageRole, content: Seq<char>, id: Seq<char>)
    requires
        5 < encode_utf8(content).len() <= usize::MAX,
        5 < encode_utf8(id).len() <= usize::MAX,
    ensures
        ({
            let bare = simple_message(role, content);
            &&& protobuf::extracted(chat_message_bytes(bare)) == seq![content]
            &&& protobuf::extracted(
                chat_message_bytes(Message { ref_call_id: Some(id), ..bare }),
            ) == seq![content, id]
        }),
{
    let bare = simple_message(role, content);
    let answer = Message { ref_call_id: Some(id), ..bare };
    let nothing = Seq::<u8>::empty();
    let number = role_number(role);
    let first = protobuf::bytes_field(3, encode_utf8(content));
    let second = protobuf::bytes_field(7, encode_utf8(id));
    protobuf::law_extract_string_field(3, content, nothing);
    protobuf::law_extract_string_field(7, id, nothing);
    protobuf::law_extract_string_field(3, content, second);
    protobuf::law_extract_varint_field(2, number, first);
    protobuf::law_extract_varint_field(2, number, first + second);
    assert(first + nothing =~= first);
    assert(second + nothing =~= second);
    assert(chat_message_bytes(bare) =~= protobuf::varint_field(2, number) + first);
    assert(chat_message_bytes(answer) =~= protobuf::varint_field(2, number) + (first + second));
    assert(protobuf::extracted(nothing) =~= seq![]);
    assert(protobuf::extracted(chat_message_bytes(bare)) =~= seq![content]);
    assert(protobuf::extracted(chat_message_bytes(answer)) =~= seq![content, id]);
}

/// A message carries a call, whole, only where all of the call is given.
pub proof fn law_call_is_sent_whole(message: Message, id: Seq<char>, name: Seq<char>, args: Seq<char>)
    ensures
        message.tool_call_id == Some(id) && message.tool_name == Some(name)
            && message.tool_args_json == Some(args) ==> tool_call_bytes(message)
            == protobuf::bytes_field(
            6,
            protobuf::bytes_field(1, encode_utf8(id)) + protobuf::bytes_field(2, encode_utf8(name))
                + protobuf::bytes_field(3, encode_utf8(args)),
        ),
        message.tool_call_id is None || message.tool_name is None || message.tool_args_json is None
            ==> tool_call_bytes(message).len() == 0,
        chat_message_bytes(message).take(
            protobuf::varint_field(2, role_number(message.role)).len() as int,
        ) == protobuf::varint_field(2, role_number(message.role)),
{
    let front = protobuf::varint_field(2, role_number(message.role));
    assert(chat_message_bytes(message).take(front.len() as int) =~= front);
}

/// Each speaker has a number of its own.
pub proof fn law_speakers_are_numbered(role: MessageRole)
    ensures
        role_number(role) == 1 <==> role == MessageRole::User,
        role_number(role) == 2 <==> role == MessageRole::Assistant,
        role_number(role) == 4 <==> role == MessageRole::Tool,
        role_number(role) == 5 <==> role == MessageRole::System,
{
}

/// A search has at least one command in a turn and at most eight.
pub proof fn law_commands_are_limited(max_commands: int)
    ensures
        command_limit(max_commands) == vstd::math::max(1, vstd::math::min(max_commands, 8)),
{
}

/// The system and the machine of a client are told as they are.
pub proof fn law_system_is_described(os: Seq<char>, arch: Seq<char>)
    ensures
        os_tree(os, arch).get("Os"@) == Some(Tree::Text(os)),
        os_tree(os, arch).get("Arch"@) == Some(Tree::Text(arch)),
        os_tree(os, arch).get("Machine"@) == Some(Tree::Text(arch)),
        os == "macos"@ ==> os_tree(os, arch).get("Sysname"@) == Some(Tree::Text("Darwin"@)),
        os == "windows"@ ==> os_tree(os, arch).get("Sysname"@) == Some(
            Tree::Text("Windows_NT"@),
        ),
        os != "macos"@ && os != "windows"@ ==> os_tree(os, arch).get("Sysname"@) == Some(
            Tree::Text("Linux"@),
        ),
{
    reveal_strlit("Os");
    reveal_strlit("Arch");
    reveal_strlit("Release");
    reveal_strlit("Version");
    reveal_strlit("Machine");
    reveal_strlit("Nodename");
    reveal_strlit("Sysname");
    reveal_strlit("ProductVersion");
    reveal_strlit("macos");
    reveal_strlit("windows");
    assert("macos"@[0] != "windows"@[0]);
    assert("Os"@[0] == 'O' && "Arch"@[0] == 'A' && "Release"@[0] == 'R' && "Version"@[0] == 'V');
    assert("Machine"@[0] == 'M' && "Nodename"@[0] == 'N' && "Sysname"@[0] == 'S');
    assert("ProductVersion"@[0] == 'P');
    let pairs = seq![
        ("Os"@, Tree::Text(os)),
        ("Arch"@, Tree::Text(arch)),
        ("Release"@, Tree::Text("1.0"@)),
        ("Version"@, Tree::Text("1.0"@)),
        ("Machine"@, Tree::Text(arch)),
        ("Nodename"@, Tree::Text("localhost"@)),
        ("Sysname"@, Tree::Text(system_name(os))),
        ("ProductVersion"@, Tree::Text(""@)),
    ];
    json::law_object_holds_its_pairs(pairs, "Os"@);
    json::law_object_holds_its_pairs(pairs, "Arch"@);
    json::law_object_holds_its_pairs(pairs, "Machine"@);
    json::law_object_holds_its_pairs(pairs, "Sysname"@);
    assert(pairs[0].0 == "Os"@ && pairs[1].0 == "Arch"@);
    assert(pairs[4].0 == "Machine"@ && pairs[6].0 == "Sysname"@);
}

/// The processors of a client are counted as they are, once as cores and once as threads.
pub proof fn law_processors_are_counted(cpu_count: int)
    ensures
        cpu_tree(cpu_count).get("NumCores"@) == Some(Tree::Integer(cpu_count)),
        cpu_tree(cpu_count).get("NumThreads"@) == Some(Tree::Integer(cpu_count)),
{
    reveal_strlit("NumSockets");
    reveal_strlit("NumCores");
    reveal_strlit("NumThreads");
    reveal_strlit("VendorID");
    reveal_strlit("Family");
    reveal_strlit("Model");
    reveal_strlit("ModelName");
    reveal_strlit("Memory");
    assert("NumCores"@[3] == 'C' && "NumThreads"@[3] == 'T');
    assert("NumCores"@[0] == 'N' && "NumThreads"@[0] == 'N');
    assert("VendorID"@[0] == 'V' && "Family"@[0] == 'F');
    assert("Model"@[0] == 'M' && "ModelName"@[0] == 'M' && "Memory"@[0] == 'M');
    let pairs = seq![
        ("NumSockets"@, Tree::Integer(1)),
        ("NumCores"@, Tree::Integer(cpu_count)),
        ("NumThreads"@, Tree::Integer(cpu_count)),
        ("VendorID"@, Tree::Text(""@)),
        ("Family"@, Tree::Text("0"@)),
        ("Model"@, Tree::Text("0"@)),
        ("ModelName"@, Tree::Text("Unknown CPU"@)),
        ("Memory"@, Tree::Integer(17179869184)),
    ];
    json::law_object_holds_its_pairs(pairs, "NumCores"@);
    json::law_object_holds_its_pairs(pairs, "NumThreads"@);
    assert(pairs[1].0 == "NumCores"@ && pairs[2].0 == "NumThreads"@);
}

/// A conversation of more than four messages is cut to the first two, a notice and the last
/// two; a shorter one is kept.
pub proof fn law_long_conversations_are_cut(messages: Seq<Message>)
    ensures
        messages.len() <= 4 ==> trimmed_messages(messages) == messages,
        messages.len() > 4 ==> trimmed_messages(messages) == messages.take(2) + seq![
            simple_message(MessageRole::User, TRIM_NOTICE@),
        ] + messages.skip(messages.len() - 2),
{
}

} // verus!
