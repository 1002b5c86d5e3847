# rblock

A read-biased reader-writer lock for sharded, read-heavy data with very short
critical sections, written and verified in Verus.

The short way in for a reader looks only for an active writer. Writers that wait do
not close a gate for readers, so new readers can keep coming in while a writer is
queued; the price is that a constant stream of readers can delay a writer for long.
Writers are woken when the last reader leaves, and then race with new readers.

## Layout

- `src/word.rs`: the state word (two parked bits and a holder count) and what each
  party decides on seeing it.
- `src/trace.rs`: the state word and the accesses to it. The word is opaque to
  verified code; each access to it makes one call on the atomic inside and is recorded,
  with the word that it was made to, in a `Trace`, which has no content at run time.
  Contracts say which accesses an operation makes to its lock's word, that it makes no
  other, and what it does on each answer.
- `src/protocol.rs`: the phases of a client of the lock, the accesses allowed in each,
  and the accesses that each operation makes.
- `src/raw.rs`: the lock and its operations.
- `src/world.rs`: a lock with all its clients, and the invariant.
- `src/laws.rs`: what follows: mutual exclusion, the read bias, no lost wake-ups, no
  faults on the way out, memory orderings, queue keys.
- `src/progress.rs`: the lock never gets stuck.
- `src/fairness.rs`: whoever waits gets in, once nobody new comes; waiting readers get
  in once no further writer goes in.
- `src/guarded.rs`: a value behind the lock: readers find what the last writer left, and
  no update is lost.
- `src/turns.rs`: the measure by which `progress.rs` and `fairness.rs` count down.
- `src/pause.rs`: the spin counter of `parking_lot_core`.
- `app/`: `RwLock<T>` and its guards on top of `lock_api`; parks and unparks threads
  through `parking_lot_core`.

## Use

```rust
let lock = RwLock::new(0usize);
{
    let value = lock.read();
    assert_eq!(*value, 0);
}
{
    let mut value = lock.write();
    *value += 1;
}
```

## What is taken on trust

- That each access of `StateWord` makes the call on the atomic that its record says it
  makes. The record is believed, not proved: nothing is known to the verifier of what
  an atomic holds. With it goes what the standard library says of `compare_exchange` and
  `fetch_update`.
- That a lock is aligned as its `AtomicUsize` is. That the address of a lock stays the
  same and is its own is used, but is nowhere stated.
- The counter inside `SpinWait`.

The laws take accesses to the word to happen one at a time, and a park to be atomic
with its check of the word.
