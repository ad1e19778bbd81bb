//! Proofs of accounts.
use crate::primitives::{Ranked, H256, POSEIDON_EMPTY_HASH, U256};
use vstd::prelude::*;

verus! {

/// The proof of one slot of an account's storage.
#[derive(Debug, PartialEq, Eq)]
pub struct StorageProof {
    pub key: U256,
    pub proof: Vec<Vec<u8>>,
    pub value: U256,
}

/// An account with its proof, as the node reports it.
#[derive(Debug, PartialEq, Eq)]
pub struct AccountProof {
    pub balance: U256,
    pub nonce: u64,
    pub code_hash: H256,
    pub storage_hash: H256,
    pub account_proof: Vec<Vec<u8>>,
    pub storage_proof: Vec<StorageProof>,
}

impl AccountProof {
    /// An account without balance, transactions or code.
    pub open spec fn is_empty(self) -> bool {
        &&& self.balance.value() == 0
        &&& self.nonce == 0
        &&& self.code_hash.0@ == POSEIDON_EMPTY_HASH@
    }
}

/// An account is empty exactly where no limb of its balance, no transaction and no
/// code says otherwise: one of these is enough to make it none.
pub proof fn law_any_holding_makes_an_account(proof: AccountProof)
    ensures
        forall|i: int| 0 <= i < 4 && #[trigger] proof.balance.0@[i] != 0 ==> !proof.is_empty(),
        proof.balance.value() != 0 ==> !proof.is_empty(),
        proof.nonce != 0 ==> !proof.is_empty(),
        proof.code_hash.0@ != POSEIDON_EMPTY_HASH@ ==> !proof.is_empty(),
        proof.balance.value() == 0 && proof.nonce == 0 && proof.code_hash.0@
            == POSEIDON_EMPTY_HASH@ ==> proof.is_empty(),
{
}

/// The parts of the proof of an account and its storage locations, and whether
/// the account is empty.
pub fn get_proof(proof: AccountProof) -> (parts: (Vec<Vec<u8>>, Vec<StorageProof>, H256, bool))
    ensures
        parts == (proof.account_proof, proof.storage_proof, proof.storage_hash, proof.is_empty()),
        parts.3 == (proof.balance.0@ == seq![0u64, 0, 0, 0] && proof.nonce == 0
            && proof.code_hash.0@ == POSEIDON_EMPTY_HASH@),
{
    let no_code = H256(POSEIDON_EMPTY_HASH);
    let same_code = proof.code_hash.same(&no_code);
    proof {
        if proof.code_hash.0@ == POSEIDON_EMPTY_HASH@ {
            H256::lemma_rank_injective(proof.code_hash, no_code);
        }
    }
    assert(proof.balance.value() == 0 ==> proof.balance.0@ =~= seq![0u64, 0, 0, 0]);
    let is_empty = proof.balance.is_zero() && proof.nonce == 0 && same_code;
    (proof.account_proof, proof.storage_proof, proof.storage_hash, is_empty)
}

} // verus!
