# crdt_core

Conflict-free replicated data types, verified with Verus: G-Counter,
PN-Counter, G-Set, OR-Set and LWW-Register.

- `src/gcounter.rs`: grow-only counter over a `HashMap<u64, u64>`; its state is
  a `Map<u64, u64>`, its value the sum of the counts, and a merge the
  component-wise maximum (`join`), proved commutative, associative, idempotent
  and a least upper bound.
- `src/pncounter.rs`: a pair of G-Counters; value is increments minus
  decrements.
- `src/gset.rs`: grow-only set; merge is union.
- `src/orset.rs`: observed-remove set with add tags and tombstones; merge
  (`or_join`) is proved commutative, associative and idempotent in the
  elements it makes observable, and an unobserved add survives a remove.
- `src/lww.rs`: last-writer-wins register ordered by (timestamp, node id).
- `src/lawful.rs`: what the generic containers assume of their element type.

Tests under `tests/` exercise every public function.
