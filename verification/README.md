# openproject

A command-line client for the OpenProject API v3, written as a Verus-verified
library with a thin program around it.

## Layout

- `src/` — the verified library. Every function states its behaviour in
  `requires`/`ensures` over mathematical models (`Seq`, `Json`, `int`), and the
  library's laws are public proof functions (`law_*`).
  - `config` — configuration files, allowed keys, host precedence and host
    canonicalization, credential scopes.
  - `credentials` — credential stores, the protected credential file's records,
    token resolution order.
  - `projects` — name normalization, project evidence and relevance, project
    and item resolution.
  - `workpackages`, `requests`, `activities`, `summaries` — request paths,
    filters, sorting, custom fields, payloads, dry-run previews and compact
    views of responses.
  - `client` — where requests go, retries and response handling.
  - `release`, `cli` — commit links, upgrades, uninstall purges, login checks
    and the text and JSON reports.
  - `json`, `compact`, `text` — the JSON tree, its compact view, and
    character-level string operations.
  - `outside` — the calls into `url`, `regex`, `chrono`, `serde_json` and std
    formatting, each with the contract the library relies on.
- `app/` — the program: argument parsing (clap), HTTP (reqwest), the system
  keyring, files, the terminal and other processes.
- `tests/` — tests of the library.
