# kanbei

A verified core for durable, inspectable agent sessions, written in Verus. The
library holds the rules of a session as functions over plain values, each with
a contract that Verus proves; everything that reads, writes, calls or waits is
done by the host in `app/`, which performs what the library asks for and hands
back what came of it.

## Layout

- `src/` is the library.
  - Compositions: `services`, `contribution`, `rules`, `registry`, `epoch`,
    `scope_tree`, with `graph` and `order` beneath them.
  - Config layers: `package`, `builtin_config`, `discovery`, `settings_gate`,
    `layers`, `activation`, `replacement`, `elements`, `wiring`, `hooks`.
  - The log: `event`, `commit`, `opening`, `recovery`, `intents`, `branch`,
    `switch`, `export`, `gc`, `layout`.
  - Runs: `runs`, `cognition`, `model`, `tools`, `tool_call`, `approvals`,
    `telemetry`.
  - Memory: `memory`, `claims`, `memory_tools`, `transition`, `projection`.
  - Values and texts: `value`, `ids`, `digests`, `json`, `text`, `errors`,
    `messages`, `session_error`.
- `tests/` runs the library on concrete values.
- `app/` is the workbench: a session over files, with a trait for each service
  that it runs on.

A model is a view of each type (`x@`), and contracts speak of views. What holds
of the library as a whole stands as proof functions named `law_..`, next to the
functions they speak of or in `service_laws`, `registry_laws`, `snapshot_laws`,
`json_laws` and `log_laws`.

## What is trusted

Six functions are believed, not proved: `text::debug` (the `Debug` form of a
text), `json::quote` (a JSON string literal), `json::accepts` (whether a text is
JSON from end to end), and the parse of a JSON text one level at a time:
`json::read_scalar`, `json::read_items` and `json::read_members`. Digests, identities, clocks and the status of a claim come
from the host: functions that need one take it as a function, and their
contracts speak of what that function returned.
