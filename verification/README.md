# nysia_core

The daemon behind a terminal environment: it owns the sessions, streams their output to
whoever is watching under a credit window, and answers one verb surface over a local socket.

The decisions are a verified library; the I/O around them is ordinary Rust.

| Directory | What it holds |
|---|---|
| `src/` | the library, written in Verus: its public functions carry contracts, and Verus proves the code against them |
| `tests/` | the library run on concrete values |
| `app/` | the runtime around it: sockets, files, processes, threads, clocks |

## The library

| Module | What it decides |
|---|---|
| `endpoint` | where the daemon listens, and the names of the files beside it |
| `discovery` | connect, or start one daemon and only one |
| `peer` | whether a caller is this account, and which session it descends from |
| `control` | newline-delimited frames out of arbitrary chunks of bytes |
| `lease` | the record that says which daemon this is |
| `session` | the sessions, what each runs, and the pump between a pty and its watchers |
| `stream` | the sinks, their allowances, and which connection serves which client |
| `server` | the handshake, verb dispatch, replayed answers and idle retirement |
| `client` | the other half of the handshake and the verbs |
| `agent_status`, `spool` | agents' status rows, published and kept while no daemon runs |
| `project`, `tasks` | folders, worktrees and issues, from what `git` and `gh` print |
| `log_file` | rotation, retention and the filter screen |
| `text`, `paths`, `digest`, `wire`, `errors` | what the others share |

A function whose name begins with `law_` is a theorem about several of the others. What the
library takes on trust from outside crates and from std is not proved: it stands behind
wrappers and declarations, each with a comment that says what is believed of it.
