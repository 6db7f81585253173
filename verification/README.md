# orbital

The logic of an orbital computing node, written in Verus and proved against
its contracts.

- `src/` is the verified library. `minikran` is the fail-closed task kernel
  with its sealed WORM ledger; the `orbital_*` modules hold the coordinator
  (task lifecycle, watchdog, fault state machine, audit trail), the BLAKE3
  event ledger, bounded and ring buffers with checkpoints, the scheduler, the
  outbound message queue, telemetry frames with CRC-32 and a replay buffer,
  the metered execution contexts, and the verification engine. `bytes`,
  `text`, `digest`, `codec` and `clock` are shared helpers; the last three
  are where the library calls BLAKE3, zstd, flate2 and the system clock,
  behind contracts that are trusted, not proved.
- Each module states its model as spec functions and views, and the
  properties that span operations as `law_*` proof functions.
- `app/` holds what the library does not prove: floating-point kernels,
  error messages, JSON export and import of the ledger, and `Duration`
  conversions.
- `tests/` exercises the library on concrete values.
