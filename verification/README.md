# badbatch

A ring-buffer event pipeline in the LMAX Disruptor style. The library in
`src/` is verified with Verus; `app/` holds what runs around it.

## Layout

- `src/` — the verified library:
  - `sequencer.rs`: claim and publish state for single- and multi-producer
    rings, gating by consumers, terminal flags and the first failure;
  - `ring_buffer.rs`: power-of-two pre-allocated slots;
  - `pipeline.rs`: ring, sequencer and consumers as one state with producer
    operations (claim, fill, publish) and consumer steps (sequential,
    read-only fan-out, worker pool) as verified transitions;
  - `topology.rs`: planning consumer stages and registering them;
  - `shared.rs`: a pipeline shared by handles and threads behind one lock,
    which stays well-formed (and poisoned) when a callback panics. The lock
    is never waited for: an operation that finds it held reports `Busy`
    (`Contended` or `Timeout` for publishes), so a callback that calls back
    into its own pipeline gets an error instead of a deadlock; callers on
    other threads retry in `app/`;
  - `producer.rs`, `event_poller.rs`, `event_processor.rs`: producer handles,
    a polling consumer and a batch event processor on a shared pipeline;
  - `laws.rs`: properties that span operations;
  - the remaining modules: errors, failure records, handlers, factories,
    translators, wait strategies.
- `app/` — consumer threads and their loops, waiting, CPU affinity, logging,
  the fluent builders with their runtime handle, and the DSL.
- `tests/` — tests of the library.

## One lock, not lock-free

Unlike a lock-free LMAX-style disruptor, where producers claim slots with
atomic operations and consumers follow sequence barriers without locks,
this library keeps the whole pipeline (ring, sequencer, consumer sequences
and worker-pool claims) behind one `std::sync::Mutex`. Every producer and
consumer operation, including the handler callbacks of a consumer step,
runs while holding it, so producers and all consumer stages take turns.

What is verified is the pipeline as a sequential state machine and each
step taken under the lock. The lock is std code that is trusted, and what
one call finds behind it relative to an earlier call is not stated. The
library never waits: a full ring refuses a publish (`InsufficientCapacity`
or `Full`) and a held lock is reported (`Busy`, `Contended`, `Timeout`);
the loops that wait and retry live in `app/`.
