//! Contract code by its hash.
use crate::codec::{be_word, code_decoded, decode_code, has_prefix, keccak, keccak256_digest, read_word};
use crate::errors::HexError;
use crate::primitives::U256;
use crate::sorted_map::SortedMap;
use vstd::prelude::*;

verus! {

/// Contract code by its hash.
pub type ContractCodes = SortedMap<U256, Vec<u8>>;

/// Code that is known after the code of an account was recorded.
pub open spec fn with_code(codes: Map<U256, Seq<u8>>, code: Seq<u8>) -> Map<U256, Seq<u8>> {
    codes.insert(be_word(keccak256_digest(code)), code)
}

/// Recorded code is found under its hash, whatever was known before, and no other
/// code is touched.
pub proof fn law_recorded_code_is_found(
    codes: Map<U256, Seq<u8>>,
    code: Seq<u8>,
    hash: U256,
)
    ensures
        with_code(codes, code).contains_key(be_word(keccak256_digest(code))),
        with_code(codes, code)[be_word(keccak256_digest(code))] == code,
        hash != be_word(keccak256_digest(code)) ==> {
            &&& with_code(codes, code).contains_key(hash) == codes.contains_key(hash)
            &&& codes.contains_key(hash) ==> with_code(codes, code)[hash] == codes[hash]
        },
{
}

/// The map from code hash to code that holds the empty code, under the hash that
/// it is given.
pub fn contract_codes(empty_code_hash: U256) -> (codes: ContractCodes)
    ensures
        codes@ == map![empty_code_hash => Seq::<u8>::empty()],
{
    let mut codes: ContractCodes = SortedMap::new();
    let empty: Vec<u8> = Vec::new();
    codes.insert(empty_code_hash, empty);
    assert(codes@ =~= map![empty_code_hash => Seq::<u8>::empty()]);
    codes
}

/// Records code under its digest, read as a big-endian word.
pub fn record_code(codes: &mut ContractCodes, digest: &[u8; 32], code: Vec<u8>)
    ensures
        final(codes)@ == old(codes)@.insert(be_word(digest@), code@),
{
    let hash = read_word(digest);
    codes.insert(hash, code);
}

/// Decodes the code of an account and records it under its Keccak hash.
pub fn add_code(codes: &mut ContractCodes, code: &String) -> (added: Result<(), HexError>)
    requires
        has_prefix(code@),
    ensures
        match (added, code_decoded(code@)) {
            (Ok(_), Ok(bytes)) => {
                &&& final(codes)@ == with_code(old(codes)@, bytes)
                &&& final(codes)@ == old(codes)@.insert(be_word(keccak256_digest(bytes)), bytes)
            },
            (Err(error), Err(cause)) => error == cause && final(codes)@ == old(codes)@,
            _ => false,
        },
{
    match decode_code(code) {
        Ok(bytes) => {
            let digest = keccak(bytes.as_slice());
            record_code(codes, &digest, bytes);
            Ok(())
        },
        Err(error) => Err(error),
    }
}

} // verus!
