# paloma_core

The core of the Paloma launcher as a verified library: the decisions and
data handling behind search, tool permissions, chat sessions and tool
answers, each stated as a contract and proved with Verus.

## Layout

- `src/` — the verified library.
  - `permission/` — shell command grammar, transparent wrappers
    (`env`, `timeout`, `nice`, ...), safety verdicts for Unix and Windows
    commands, and the planning of a command's parse.
  - `controller/` — the permission workflow state machine, sessions and
    their history, turns and steps of a chat, tool-call dispositions and
    what the UI is sent.
  - `capability/` — the calculator's input selection, clipboard history,
    application and file search with their rankings, the file index and
    its upkeep, shell process capture and the shell report.
  - `extension/` — extensions as listed, and structured tool answers with
    their per-body share of the payload limit.
  - `mcp.rs` — MCP servers as listed, the text of a call's answer and its
    truncation, and a call's effect on a server's health.
  - `entity.rs`, `provider.rs`, `db.rs` — shared data, health levels and
    identifiers.
- `tests/` — tests run against the compiled library.
- `app/` — the code around the library that Verus does not check:
  threads, watchers, processes, the file system and the system clipboard.

The laws of the library are public proof functions next to the operations
they speak of.
