# cursor-bridge

An OpenAI-compatible HTTP gateway in front of the Cursor CLI (`agent`).

- `src/` is the library, verified with Verus: reading the CLI's output
  (`stream-json` events, `agent models`, `agent status`, `agent login`),
  the model allowlist (a sorted map with discovery merged in and a cache),
  configuration, chat request parsing, prompt building, Bearer checks,
  response bodies, stream chunks and the setup-UI decisions.
  - `text.rs`: character-level string operations with `Seq<char>` specs.
  - `json.rs`: a JSON value model, its compact text and field access;
    parsing goes through `serde_json`.
  - `agent.rs`, `models.rs`, `config.rs`, `setup.rs`, `routes.rs`.
- `app/` is the server: axum routes, process spawning, environment, files.
- `tests/` exercises the library on concrete values.
