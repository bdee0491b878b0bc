# arkeles

The core of ARKELÉS, a calm personal dashboard over an Obsidian vault that
hands semantic work to a local agent, Hermes. The vault is the truth; the
SQLite index is derived data; ARKELÉS only makes mechanical edits (checkboxes,
frontmatter fields, tags, line order, a raw inbox line) and records the jobs it
hands to Hermes.

## Layout

- `src/` — the verified library (Verus). Every public function states what it
  computes:
  - `vault/` — reading notes (frontmatter framing, YAML-to-JSON, tasks,
    `[[links]]`, identity, title and workspace), the mechanical writers with
    their version guard, and time formatting (with the proof that timestamps
    sort as the times they name).
  - `index.rs` — the rows a note becomes, which files a scan rewrites, which
    notes left the vault, and safe full-text queries.
  - `hermes/` — declared capabilities, the action allowlist, HTTP and
    JSON-RPC framing, the turn state machine, and the job ledger's rules.
  - `config/`, `ipc.rs`, `watcher.rs`, `types.rs`, `json.rs`, `text.rs`.
- `tests/` — tests run against the compiled library.
- `app/` — the program around it: the command line, files, SQLite, sockets,
  the file watcher and the serialised records.
