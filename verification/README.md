# agentrt_console

The console library of the AgentRT runtime, verified with Verus, and the
`agentrt` command-line program around it.

## Layout

- `src/` — the verified library. Every function carries a contract over
  `Seq<char>`-level models; the laws of the library are public proof functions.
  - `text` — character-level helpers (trimming, prefixes, replacement,
    splitting, ASCII case, decimal and hexadecimal text).
  - `stream` — the fold over the events of a streamed agent run: what is shown
    after each event and how the run ends.
  - `config` — the configuration document as a tree: setting a dotted key,
    the required-section check, string lookups.
  - `json` — JSON values as the library reads and builds them, and member lookup.
  - `gateway` — endpoints, the JSON-RPC 2.0 request envelope and the reading of
    its replies, the parameters of each call, and what the `llm.complete` probe
    reads from its result.
  - `llm` — provider lookup and grouping of the model registry.
  - `market` — install replies and the manifest to publish.
  - `prompt` — template files and their descriptions.
  - `run` — session ids, the interactive prompt and the run summary.
  - `scaffold`, `templates` — what `init` and `create` write.
  - `deploy`, `db` — uptime text and migration-script arguments.
- `app/` — the program: argument parsing, the HTTP and streaming transport,
  file access, YAML and JSON parsing, terminal output.
- `tests/` — tests of the library on concrete values.
