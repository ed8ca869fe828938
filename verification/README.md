# dexrs

A task tracker for the command line that keeps its tasks in a
`.dex/tasks.jsonl` store, with parent/child and blocker links, archiving,
a configuration file, an MCP server, and sync with GitHub Issues and
Shortcut Stories.

The crate is written in Verus. `src/` is the library, every function of it
verified against its contract:

- `task`, `validate`, `relations`, `service`: the task model, the store's
  consistency rules and the operations that keep them (creating, moving,
  blocking, deleting), with laws such as "adding a blocker keeps every link
  consistent" and "a repeated add changes nothing".
- `listing`, `show`, `status`, `task_json`: what `list`, `show` and
  `status` print.
- `commands`, `archive`, `config`, `config_file`, `doctor`, `help`, `mcp`:
  the decisions behind each command, the configuration files' TOML, and
  what the MCP server answers each line of its input.
- `sync`, `issue_body`, `github`, `shortcut`, `closing`, `pull`, `imports`,
  `steps`: the formats the services carry, and what one sync or import
  decides to do.
- `json`, `text`, `sort`, `clock`, `store`, `remote`, `error`: the values
  and helpers the rest is stated over.

`app/` is the program around it: argument parsing, the locked store files,
git, HTTP, and printing. `tests/` runs the library on concrete values.
