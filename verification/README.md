# diffuzzer

A differential file-system fuzzer. Workloads of file-system operations are
generated against an abstract model of a file system, encoded as C tests,
run on two real file systems, and the results compared: the traces of the
calls and the hashed states of the file trees.

The library (`src/`) is verified with Verus:

- `abstract_fs`: the model (directories, files, symbolic links, descriptors),
  replay of workloads, the reachable nodes, random generation and mutation
  of workloads, the C encoding, and the trace format.
- `dash`: the state hasher's comparison of two file listings.
- `fuzzing`: outcomes of runs, the trace objective, coverage feedback (kcov
  and LCOV), the greybox mutator, test-case reduction and statistics.
- `mount`, `command`, `supervisor`, `path`: the steps and command lines that
  set up file systems and run commands, and the decisions taken around them.

`app/` holds the program around it: the command line, configuration and
test-case files, processes, QEMU and the file-system walk of the state
hasher (the same binary, run under the name `dash`).
