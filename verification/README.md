# agentd

The decisions of an agent daemon as a verified library: a durable event log, the
event and inference API, supervised sessions behind protocol bridges, a CONNECT
proxy for egress, and a command sandbox with its virtual paths.

- `src/` is the library. Every function carries a contract that Verus proves; the
  laws that relate several functions are public proof functions beside them.
- `tests/` runs the library on concrete values, with the outside crates linked.
- `app/` is the daemon around it: arguments, files, sockets, processes, and the
  JSON shapes on disk and on the wire. Its only rules are small stand-ins for those
  of the event crate: which attributes of an envelope are required, and which trace
  contexts are well formed.

## Modules

| Module | What it holds |
| --- | --- |
| `text`, `order`, `scan`, `textmap`, `json` | texts, their order, scanning, maps keyed by text, and JSON values |
| `vpath`, `tree`, `guard`, `hostpath`, `mount` | virtual paths, the in-memory tree, path screening and byte budgets, host paths, and host mounts |
| `policy`, `confinement` | what a sandbox and a session may do |
| `shell` | which commands the allowlist admits |
| `executor`, `sandbox`, `seatbelt` | the permission flow of a command, its confinement profile, and its output |
| `events`, `log`, `eventstore` | events, the append-only log, and the SQLite store's migrations |
| `bridge`, `frame`, `session`, `approvals` | protocol state machines, output frames, supervision, and permission deadlines |
| `auth`, `server`, `proxy` | bearer tokens, the event streams, and the egress proxy |
| `ids`, `init`, `up`, `cli`, `launch`, `error` | identifiers, first-run setup, the one-shot launch, arguments, startup order, and errors |

A command runs only when the policy's allowlist admits it: its tokens must start
with exactly those of an allowed prefix, and a command that uses more of the shell
than words and quoting is never admitted.

An outside crate is called only behind a small wrapper whose contract is believed
rather than proved; the comment above each wrapper names the function it calls and
says what is claimed of it.
