# verlet_agent_loop

The decision logic of an agent loop that drives a conversation thread: it
assembles a model request from the session history, runs the model (with
retries and fallbacks), runs the tools the model asks for in the order their
holds allow, records what happened as events, and recovers interrupted tool
calls from those events. The library holds that logic as plain data and
functions whose contracts are proved with Verus. The I/O they decide on
belongs to a runtime that needs the kernel's stores and provider clients;
this crate holds only the parts of it listed under `app/` below.

## Layout

- `src/` — the verified library.
  - `text` — string building, whitespace, decimal rendering, the order of texts.
  - `retry` — retry policy, error classes, the step after a failed attempt.
  - `history` — canonical messages and session entries; reattaching late tool
    results; text projections.
  - `stream` — assembling a streamed response and its runtime events.
  - `recovery` — effect classes from a manifest bind receipt; recovery actions.
  - `events` — queries over the persisted event log (steering, tool rounds,
    open batches, recorded completions).
  - `sweep` — settling the calls that a cancelled child turn left dangling.
  - `replay` — replaying an open tool batch, resuming a suspended call,
    reusing recorded results.
  - `commands`, `turn`, `tools`, `compaction` — what the loop does with each
    command, round, tool batch and compaction.
  - `round` — the rounds of a provider turn as a state machine (boundary,
    assembly and compile receipt, request, persisted assistant entry, tool
    batch).
  - `appends` — what a tool batch, and the settling of a swept call, append
    and in which order.
  - `failure` — the `turn.failed` record and its capped message.
  - `json` — the few `serde_json` operations the logic makes.
- `tests/` — tests of the library against concrete values.
- `app/` — the runtime side: JSON configuration, decoding persisted payloads
  into the library's event model, the pieces that need the process, drivers
  that run a provider turn's rounds and a model request's attempts through
  the library's decisions, and the JSON of the context compile receipt. The
  idle-command loop, tool execution, the appends themselves, the sweep,
  replay and compaction have no runtime here.
