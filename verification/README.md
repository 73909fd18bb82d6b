# lsp-mcp

An MCP server that offers the abilities of a language server (rust-analyzer) as tools: definitions,
references, symbols, completions, renames, code actions and diagnostics, besides prompts, shells and
refactoring sessions.

- `src/` is the library. It holds the logic, with contracts that Verus proves: the messages to the
  language server, which answer belongs to which request, and how messages are read from bytes
  (`protocol`, `lsp`, `stream`), text edits and changes to the workspace (`edits`, `splices`,
  `changes`, `workspace`, `offsets`, `text`), symbols and how they are found
  (`symbols`, `find`), diagnostics (`diagnostics`, `notices`), the tools (`handler`, `tools`, `args`,
  `models`, `errors`), guidance and typed commands (`guidance`, `manual`), refactoring sessions
  (`sessions`, `ids`) and shells (`terminals`). `json` and `uri` are what the rest knows of JSON
  values, URLs and paths.
- `tests/` runs the library.
- `app/` is the program: processes, files, connections, and the values on the wire.

The laws that hold across functions are public proof functions beside the functions they are about,
such as `splices::edited_text_is_the_text_with_its_parts_replaced`, `find::nearest_come_first`,
`stream::messages_are_read_back_in_order`, `workspace::a_failure_ends_the_plan` or
`terminals::output_comes_back`.
