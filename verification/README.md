# fibonacci_circuit

A halo2 circuit for the statement "this is the term with index nine of the Fibonacci sequence
that starts with these two terms", over the scalar field of BN254.

- `src/` is the verified library. It describes the circuit in plain values: which columns,
  selectors and gates it needs, which regions it assigns, and which cells it ties to public
  values. It computes the witness, selects the public values of a claim, and reports what a
  proof system answered. `src/laws.rs` proves that the circuit can be satisfied for exactly
  the right outputs.
- `app/` replays these descriptions on `halo2_proofs` and runs the HyperPlonk backend of
  `plonkish_backend`, which is not published on crates.io and has to be supplied from its
  repository.
- `tests/` checks the library on concrete values, and replays the circuit in the mock prover
  of `halo2_proofs`.
