# codex_monitor

The rules of a desktop monitor for Codex workspaces, verified with Verus, and the application
around them.

The monitor keeps a list of workspaces. For each it runs an app server, a process that it talks to
in lines of JSON, and it shows what has changed in the repository of a workspace.

## The library, `src/`

- `json`, `wire`: JSON values, their text, and messages as lines
- `text`: blank lines, and the order of names
- `assoc`: tables keyed by text
- `workspace`, `monitor`: workspaces, and how they are stored, listed, added, removed and connected
- `session`, `handshake`, `requests`: the conversation with an app server
- `git`: the report on a repository

What is believed of other crates and of the standard library stands in the contracts of the
functions marked `external_body` and in `assume_specification` items, each with a comment on what
it claims.

## The application, `app/`

The window and its commands, the file that workspaces are stored in, the processes of the app
servers, and the repositories. It does the reading and writing; what to read and write, the library
says.
