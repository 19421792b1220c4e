# mapreduce_wasm

A small map-reduce framework whose map and reduce functions are WebAssembly
components. A master hands out map tasks (one per input file) and then
reduce tasks to workers; workers run the components, write their outputs
under `./out/`, and commit them; the master gathers the reduce outputs into
one result file.

Layout:

- `src/` — the verified library (Verus): the task types, the coordinator's
  state machine (`coordinator`, `server`), the worker's decisions (`worker`),
  the text format of outputs (`records`), partitioning and grouping of
  records (`shuffle`, `hashing`), output file names (`paths`), the master's
  setup and final gathering (`master`), the word-count components (`map_wc`,
  `reduce_wc`), properties across operations (`laws`) and across whole
  histories of requests, commits and timeouts (`history`).
- `app/` — the program around it: command line, RPC service and client,
  file I/O, running the wasm components.
- `tests/` — tests of the library.

Usage: `<server_type> <addr:port> [num_reduces map_wasm_file reduce_wasm_file [timeout_sec]]`,
with `server_type` either `master` or `worker`.
