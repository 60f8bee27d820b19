# sandboxfs

A filesystem view whose reads, writes and metadata changes can be watched,
guarded, granted, denied and adjusted while programs use it. A foreground
session (`sandboxfs run <name>`) owns a sandbox in memory; short commands and a
screen talk to it over a socket, and FUSE shows the sandbox at mountpoints.

The logic is a library verified with Verus. The program around it does the I/O.

## Library (`src/`)

| module | what it holds |
| --- | --- |
| `path`, `host`, `text`, `table`, `time` | sandbox paths, host paths, texts, ordered tables, times |
| `policy`, `overlay`, `sandbox` | patterns and rules, the stack of layers and hides, a sandbox with its overrides |
| `operation`, `metadata`, `pending`, `grant` | operations and their effects, overrides, pending requests, grants |
| `registry` | everything a session knows, and the index of pending requests |
| `session`, `lifecycle`, `decision`, `grant_allow`, `dispatch` | what each request to a session does |
| `fs`, `attr`, `forward`, `authorize`, `metadata_request` | what each request of the kernel leads to |
| `cli`, `command`, `tui`, `ipc`, `log`, `runtime`, `hostfs`, `process_info` | commands, edited commands, messages, log lines, runtime files, the process list |
| `laws` | what holds of a session as a whole |

Each function states what it returns or changes in `requires` and `ensures`;
`laws` relates several of them. The glob patterns of rules are matched by the
`glob` crate and edited commands are split by the `shlex` crate; both are
called through small trusted functions in `policy` and `tui`.

## Program (`app/`)

`app/main.rs` is the `sandboxfs` program, and `sandboxfs-access-tui` when it is
called by that name. It reads the environment and the command line, serves the
socket, mounts views, writes the log, looks at the process list, and carries
allowed operations out on the host.

## Tests (`tests/`)

The tests run the library from outside, with a log and waiters kept in memory.
