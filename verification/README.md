# bg-driver

Background computer-use driver. The library under `src/` is written in
Verus and verified:

- `input_chain` — chains of input actions: recording keeps them stably
  sorted by timestamp, compression collapses bursts of mouse moves, replay
  yields the gaps between actions, filtering and typed-text extraction.
- `bench` — summary statistics of latency samples (total, mean, nearest
  rank p50/p95/p99) and benchmark labels.
- `screenshot_diff` — integer statistics of a per-pixel screenshot
  comparison.
- `agent` — the Think / Act / Observe loop as a state machine.
- `driver` — actions, results and the stub macOS / Windows backends.
- `sandbox` — the pass-through sandbox and the default Job Object limits.
- `text` — decimal rendering of integers.

`app/` holds the command-line program and everything asynchronous or
floating point: the `ComputerDriver` and `Sandbox` traits, the benchmark
timing loops, the agent loop runner, serde forms of the library's types,
and the Windows Job Object wrapper.
