//! Gathers from an Ethereum node what the proof of a transaction needs.
//!
//! The library decides what the node is asked, takes up the answers, and works
//! out the state, the contract code and the block metadata. It does no I/O.
pub mod accounts;
pub mod block;
pub mod codec;
pub mod codes;
pub mod coherence;
pub mod effects;
pub mod errors;
pub mod gather;
pub mod primitives;
pub mod proof_reply;
pub mod run;
pub mod smt;
pub mod sorted_map;
pub mod tracing;
pub mod transaction;
pub mod tries;

pub use block::get_block_metadata;
pub use gather::gather_witness;
pub use primitives::{TrieRootHash, EMPTY_HASH, EMPTY_TRIE_HASH, POSEIDON_EMPTY_HASH};
pub use proof_reply::get_proof;
