# flowlite

The rules of a job scheduler and orchestrator: what becomes of a run, a task run and an
attempt, what is submitted, what is deleted, who is told, and what the dashboard and the
agent tools show. Each rule is a function with a contract, proved by Verus.

## Layout

- `src/` is the verified library.
  - `status`, `time`, `text`, `vars`, `models`, `limits`, `config`, `format`: the values the
    rules are stated over.
  - `orchestrator/`: releasing, starting, watching and settling runs, task runs and attempts;
    the environment of a command; recording its output; recovery after a crash.
  - `notifications/`: whether, to whom and with what words a run's ending is told.
  - `scheduler`, `retention`: which occurrences are submitted, which runs are deleted.
  - `poller`, `services`: the loop that every background service runs in.
  - `serve_state`: one server for each data directory.
  - `mcp/`: the tools an agent calls.
  - `router/`: what the pages show, and which requests are refused.
- `app/` is the server around it: database, processes, network and clock. It reads what a
  rule needs, calls the rule, and does what it says.
- `tests/` runs the library on concrete values.

## How the rules read

Contracts speak of views: a text is its characters, an instant its nanoseconds since 1970, a
set of variables a map. What a function returns is pinned by a `spec` function of the same
arguments, and what the functions promise together stands beside them as public `proof`
functions, each with the promise in words above it.

What chrono, lettre, mime_guess and the standard library compute is believed, not proved. The
functions that call them say in their comments what is believed of each.
