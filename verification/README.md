# acadchain

A marketplace for academic documents, verified with Verus. Authors submit
documents (theses, dissertations, papers, technical reports); an admin records
the result of an AI plagiarism check; staked referees vote on the documents that
pass it; published documents can be bought for a limited access window; each
sale is split 70% to the author, 20% to the platform treasury and 10% among the
document's voters; everyone withdraws their pending earnings.

Layout:

- `src/types.rs` — accounts, documents, profiles, vote records, errors, and the
  effects (token movements, events) that an accepted operation hands to its host.
- `src/assoc.rs` — a keyed store with distinct keys, seen as a finite map.
- `src/rules.rs` — royalty splits, saturating balances, reputation, and the
  publication quorum.
- `src/chain.rs` — the platform state (`AcadChain`), its model (`ChainView`),
  the invariant, every operation with its exact contract, and conversion of the
  state to and from stored parts.
- `src/laws.rs` — properties of the platform: the lifecycle steps, the quorum,
  the royalty split, one vote per account and document, vote records matching
  the counted votes, pausing, access windows, withdrawals, and what every
  operation keeps over runs of operations (vote records unchanged, and access
  ending exactly when it was bought to end unless the reader buys again).
- `app/lib.rs` — the Soroban contract around the library: storage, signatures,
  ledger sequence, token transfers and events.
