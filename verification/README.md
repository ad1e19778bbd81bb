# leader

Gathers from an Ethereum node what the proof of a transaction needs: the
transactions of its block up to it, their traces, the state and the contract code
that the traces add up to, and the metadata of the block.

- `src/` is the library, verified with Verus. It does no I/O. `gather_witness`
  starts a run; `Gathering::request` says what the node is asked next, and
  `Gathering::step` takes up the answer. What a run asks and gathers is stated in
  `run.rs`, what holds at every step in `coherence.rs`.
- `tests/` runs the library with the crates that it calls.
- `app/` puts the requests to a node over JSON-RPC, and files accounts in a sparse
  Merkle tree.

What the library takes from other crates stands behind functions whose contracts
are trusted: hexadecimal decoding (`hex`), Keccak, big-endian words and the
encoding of transactions (`ethers`), and partial tries (`mpt_trie`).
