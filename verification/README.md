# aggios_core

Voting through aggregators, with a proof of partition, verified with Verus.

Each voter delegates to one aggregator by a BLS signature. When registration
closes, the aggregator posts a token for every voter, padded to a power of two,
with proofs that each token belongs to the voter's voting key. After the vote it
posts a tally with a proof that the committed tokens were split into one
partition for each candidate, one for those who did not vote and one for the
padding, with the posted sizes. Validators recompute all public inputs; only
verified tallies enter the global tally.

## Layout

- `src/modular.rs`, `src/sums.rs`, `src/roots.rs`, `src/poly_math.rs`,
  `src/fft_math.rs`: the mathematics that contracts and proofs speak of.
- `src/field.rs`, `src/curve.rs`, `src/poly.rs`, `src/hash.rs`,
  `src/generator.rs`: scalars, points, polynomials, hashes and random number
  generators, on top of arkworks, SHA-512 and `rand`. A scalar is viewed as an
  integer below the order of the groups, a point as its discrete logarithm, a
  generator as the words that it gives next.
- `src/epa/`: the proof of partition: setup, prover, verifier, and the proof
  that an honest prover is always accepted (`completeness.rs`).
- `src/bls.rs`, `src/eqlog.rs`, `src/labels.rs`, `src/domain.rs`,
  `src/registration.rs`, `src/epa_adapter.rs`, `src/proof_bytes.rs`,
  `src/tally.rs`, `src/artifacts.rs`: the protocol.
- `src/tally_laws.rs`, `src/demo_laws.rs`, `src/call_laws.rs`: what holds of the
  protocol as a whole.
- `src/demo*.rs`, `src/routes.rs`, `src/calls.rs`: elections of a demonstration,
  and the requests on them.
- `src/benchmark*.rs`, `src/jobs.rs`: benchmarks.
- `app/`: the web server, the command line, and the interface for a browser.

The key material of the setup comes from a fixed seed. This is a demonstration,
not a voting system for use.
