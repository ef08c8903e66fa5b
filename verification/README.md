# llama-test-matrix

A benchmark-matrix runner for `llama-server` (llama.cpp) with a GPU
"black box" monitor.

- `src/` is the library, verified with Verus: parsing of the matrix
  parameters, sampling of test points, case planning and grouping by
  context, the decisions of a run (which context groups are skipped after
  a startup failure, the status of a finished case, the steps of a case
  group with its server restarts), the server and benchmark command lines,
  the reading of streamed completions, the tally of a built-in benchmark,
  the reading of result logs and benchmark reports for the summary table
  (case blocks, request counts, token sources), progress bookkeeping, configuration defaults, hardware-specification
  items and the black box's collector rows and trigger decisions.
- `app/` is the command-line program around it: argument parsing, files,
  processes, HTTP, timing, and the floating-point figures of the reports.
- `tests/` exercises the library.
