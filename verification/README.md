# ida-mcp

Decision logic of a headless IDA Pro MCP server, verified with Verus.

`src/` is the library. Every function in it has a contract that Verus proves:

- `open`, `open_types`, `open_laws`: opening a database or a raw input. An open is a state
  machine: a step asks for something (a lock, an IDA call, a hash), and its outcome decides
  the next step. `open_laws` proves what holds of every open: what is taken is given back,
  an existing database is reused or overwritten only with provenance, only files of a
  database that the open made are removed, and every open ends.
- `database`, `output`, `files`: which paths name the same database, which files belong to
  it, and where the database of a raw input may go.
- `digest`: the SHA-256 of an input that is read piece by piece.
- `debug_info`, `script`, `json`, `db_info`, `error`: replies to tool calls.
- `functions`, `disasm`, `probe`: listing, finding and disassembling functions.
- `stdio_transport`, `http_config`, `server`, `cancellation`: when stdin may be read, how the
  HTTP transport is configured, when a server ends, and how a wait is cancelled.
- `path`, `text`, `number`: paths by the rules of Unix or Windows, text and numbers. The
  caller says which platform its paths are for.

What the library is told of files, of IDA and of the client comes in as plain values.
Contracts of calls into `sha2`, `serde_json` and `rmcp` are believed, not proved; each such
item says in its comment what it claims.

`app/` is the program around the library: command line, MCP servers, files, locks and IDA
through `idalib`, which needs an IDA installation to build.

`tests/` runs the library, and compares its paths, text and numbers with `std`.
