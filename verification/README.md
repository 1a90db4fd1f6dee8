# swegrep

A code search that lets a model look around in a project. A query goes to the
model together with a snapshot of the project; the model asks for commands
(`rg`, `readfile`, `tree`, `ls`, `glob`), which run on the working tree, and ends
with an answer that names files and ranges of lines.

`src/` is the library, verified with Verus: every decision and every text of the
search is computed there, from plain values to plain values. `app/` is the command
line around it: arguments, files, processes, the database and the network.

## Modules

| Module | What it holds |
| --- | --- |
| `protobuf`, `protocol`, `tool_schema` | what is sent to the model |
| `response`, `commands` | what the model answers, and the commands in it |
| `search`, `turns` | the search as a state machine |
| `answer`, `output` | the files of an answer, and how they are shown |
| `executor`, `listing`, `walk`, `rg`, `tools`, `repo` | the local tools and the snapshot |
| `path_filter`, `patterns`, `paths` | which paths are shown |
| `auth`, `credentials`, `settings` | keys, tokens and settings |
| `http`, `error`, `debug` | requests, errors and the debug log |
| `json`, `text`, `bytes`, `sorting`, `types` | what the others are made of |

Paths have `/` between their parts. Those of Windows are brought into this form where
they come in, be it from the system or from the model; network paths and whole drives
are not meant as projects there. What globs and gitignore rules say is stated for
systems whose path separator is `/`.

## Contracts

Each function states its result over spec functions on sequences of characters and
bytes. Public proof functions named `law_…` state what holds of the library as a
whole: what is written reads back, no path leads out of the project, nothing that
the path filter hides is shown by any tool, and every step brings a search nearer to
its end.

What other crates compute (gzip, JSON, regular expressions, globs, gitignore rules,
base64) is called through small functions marked `external_body`. Their contracts
are believed; the doc comment of each says what is claimed.
