# vscode_atomic_tauri

The platform side of a desktop VS Code workbench: the bridge that carries
channel calls, listens, cancellations and events between the workbench and
the platform services (files, watchers, terminals, storage and settings,
native host, dialogs, telemetry, lifecycle, the extension host sidecar,
authentication and tunnel state), together with the base primitives
(URIs, cancellation, disposables, loggers, framing, RPC dispatch).

## Layout

- `src/` — the library, verified with Verus. Each module states what its
  functions return over mathematical models (`Seq`, `Map`, views of the
  types), and proves the laws that tie operations together: what a
  cancellation does to the calls it names, what a disposed subscription
  still receives, what a read gives back after a write, how a sidecar
  moves through its states, that a response settles its call once.
- `tests/` — tests of the library on concrete values.
- `app/` — the host process around the library: standard input and output
  in place of the webview, the disk, child processes, file watchers,
  serde copies of the message types, the metric events (which carry
  floating point values) and the callback-holding primitives (event
  emitters, observables, shared cancellation tokens).
