# pevm

Parallel EVM block execution in the Block-STM style, with a speculation
fence that decides when a read should wait for a writer rather than
speculate. The library is written in Verus: each operation carries a
contract over a mathematical model of its state, and the properties that
span operations are stated and proved as proof functions.

## Layout

- `src/types.rs`: transaction indexes and versions, memory values and
  entries, read origins.
- `src/scheduler.rs`: the collaborative scheduler (execution and
  validation tasks, dependencies, aborts, incarnations).
- `src/mv_memory.rs`: the multi-version memory (versions per location,
  estimates, read and write sets, validation, residual writes).
- `src/validation.rs`: the end of a validation: rebind-only repair of
  invalid reads, fencing an aborted incarnation's writes, and the rewind
  of the validation cursor.
- `src/specfence/`: the fence's control plane: access arms and spine,
  admission plans, the fence graph, the arm table, edge tables, busy/stall
  recorder, decision histograms, engagement, resume and boundary checks,
  and the runtime switch values.
- `tests/`: executable tests of the library.
- `app/`: process-level glue that Verus does not see: environment reads,
  clocks and per-thread state, serialisable report copies, and the
  floating-point statistics (inter-block prior, conflict posteriors,
  timing buckets).
