# stark_experiment

STARK circuits over the Goldilocks field with Rescue-Prime (`Rp64_256`)
hashing: compliance, double-entry transfer, settlement with spending
authority, send and refund through a pending tree, custodian thresholds,
and account recovery.

- `src/` is the verified library (Verus). For every circuit it builds the
  execution trace column by column, the periodic columns, the boundary
  assertions and the public inputs read off a trace, each with a contract
  that gives every cell exactly, and the transition constraints of each
  circuit over the base field (`evaluate_transition`, with
  `constraint_spec` and lemmas on what zero residuals force); it also
  holds the native commitments
  (leaves, nullifiers, identities, roots) and the ISO 20022 bridge's
  checks. The Rescue permutation and its round constants come from
  winterfell through a few trusted wrappers in `src/rescue.rs`.
- `app/` is the winterfell side: the AIRs (on the base field they call
  the library's constraints; over a field extension they evaluate the
  same constraints generically), the provers, proof verification, and the
  end-to-end timing.
  Each `build_trace` states that every step of the trace it builds
  satisfies the round constraints of its hash lanes; for every circuit
  but the salted recovery it states that every step satisfies every
  constraint, on the honest inputs each one names.
- `tests/` runs the library on concrete values, among them every step of
  an honest trace of each circuit against its constraints.

Not here: the hiding prover, which masks the trace before committing to
it. It needs hooks in winterfell's AIR and prover (`winter_air::Marca`,
`winter_prover::Ocultacion`) that the published winterfell 0.13.1 does not
have. What its experiment computes on plain values, the census of a
value's encodings in the proof bytes and the trace with a constant column,
stands in `src/census.rs`.
