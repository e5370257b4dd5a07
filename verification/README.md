# hybrid_mount

The decision logic of Hybrid Mount, a mount orchestrator for KernelSU and
APatch modules, as a Verus library: what is configured, which modules are
mounted with which strategy, the mount plan, the executor that carries it
out, the boot retry policy and the runtime state. Each public function
states in `requires`/`ensures` what it computes, and Verus proves it.

Layout:

- `src/conf`: configuration model, loading, migration and the command-line
  settings edits.
- `src/engine`: module inventory, planner, executor state machine, storage
  choice, recovery policy, HymoFS rule compilation and mirror walk, path
  anchoring and rule tree, API payloads, runtime state.
- `src/paths.rs`, `src/text.rs`, `src/strset.rs`: paths as `std::path`
  sees them, text helpers, and sorted string sets.
- `app/`: the `hybrid-mount` program around the library: argument parsing,
  configuration and state files, the file system and the mount table.
- `tests/`: tests of the library.
