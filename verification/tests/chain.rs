use leader::block::{
    block_beneficiary, convert_bloom, is_complete, tells_beneficiary, Beneficiary, Block,
    BlockHeader,
};
use leader::errors::NotFound;
use leader::primitives::{Address, Bloom, H256, U256};
use leader::proof_reply::{AccountProof, StorageProof};
use leader::tracing::{
    tracing_options, tracing_options_diff, BuiltInTracer, PreStateConfig, TracingOptions,
};
use leader::transaction::{can_encode, encode_transaction, AccessItem, SignedTransaction};
use leader::tries::{create_fully_hashed_out_trie_from_hash, empty_trie, PartialTrieState};
use leader::{get_block_metadata, get_proof, EMPTY_TRIE_HASH, POSEIDON_EMPTY_HASH};
use mpt_trie::nibbles::Nibbles;
use mpt_trie::partial_trie::PartialTrie;

fn header() -> BlockHeader {
    let mut bloom = [0u8; 256];
    bloom[31] = 1;
    bloom[32] = 0x80;
    BlockHeader {
        hash: Some(H256([1; 32])),
        author: Some(Address([2; 20])),
        state_root: H256([3; 32]),
        gas_used: U256::from_u64(4),
        gas_limit: U256::from_u64(5),
        logs_bloom: Some(Bloom(bloom)),
        timestamp: U256::from_u64(6),
        difficulty: U256::from_u64(7),
        mix_hash: Some(H256([8; 32])),
        base_fee_per_gas: Some(U256::from_u64(9)),
    }
}

fn block() -> Block {
    Block { header: header(), transactions: vec![] }
}

#[test]
fn bloom_is_cut_into_words() {
    let mut bytes = [0u8; 256];
    bytes[31] = 5;
    bytes[32] = 1;
    bytes[255] = 0xff;
    let words = convert_bloom(Bloom(bytes));
    assert_eq!(words[0], U256([5, 0, 0, 0]));
    assert_eq!(words[1], U256([0, 0, 0, 0x0100000000000000]));
    assert_eq!(words[7], U256([0xff, 0, 0, 0]));
    assert_eq!(words[3], U256([0, 0, 0, 0]));
    // Another filter has other words.
    bytes[100] = 1;
    assert_ne!(convert_bloom(Bloom(bytes)), words);
}

#[test]
fn metadata_of_an_authored_block() {
    let (metadata, root) =
        get_block_metadata(12, U256::from_u64(1), Some(block()), false, None).unwrap();
    assert_eq!(metadata.block_beneficiary, Address([2; 20]));
    assert_eq!(metadata.block_timestamp, U256::from_u64(6));
    assert_eq!(metadata.block_number, U256([12, 0, 0, 0]));
    assert_eq!(metadata.block_difficulty, U256::from_u64(7));
    assert_eq!(metadata.block_gaslimit, U256::from_u64(5));
    assert_eq!(metadata.block_chain_id, U256::from_u64(1));
    assert_eq!(metadata.block_base_fee, U256::from_u64(9));
    assert_eq!(metadata.block_bloom[0], U256([1, 0, 0, 0]));
    assert_eq!(metadata.block_bloom[1], U256([0, 0, 0, 0x8000000000000000]));
    assert_eq!(metadata.block_gas_used, U256::from_u64(4));
    assert_eq!(metadata.block_random, H256([8; 32]));
    assert_eq!(root, H256([3; 32]));
}

#[test]
fn metadata_of_a_signed_block() {
    let signer = Address([0xaa; 20]);
    let (metadata, _) =
        get_block_metadata(12, U256::from_u64(1), Some(block()), true, Some(signer)).unwrap();
    assert_eq!(metadata.block_beneficiary, signer);
    assert_eq!(block_beneficiary(&header(), true), Beneficiary::SignerOf(H256([1; 32])));
    assert_eq!(block_beneficiary(&header(), false), Beneficiary::Author(Address([2; 20])));
}

#[test]
fn metadata_of_an_unknown_block() {
    assert_eq!(
        get_block_metadata(77, U256::from_u64(1), None, false, None),
        Err(NotFound::Block(77))
    );
}

#[test]
fn pending_block_is_not_complete() {
    assert!(is_complete(&header()));
    assert!(!is_complete(&BlockHeader { base_fee_per_gas: None, ..header() }));
    assert!(!is_complete(&BlockHeader { logs_bloom: None, ..header() }));
    assert!(!is_complete(&BlockHeader { mix_hash: None, ..header() }));
    assert!(tells_beneficiary(&BlockHeader { hash: None, ..header() }, false));
    assert!(!tells_beneficiary(&BlockHeader { hash: None, ..header() }, true));
    assert!(!tells_beneficiary(&BlockHeader { author: None, ..header() }, false));
}

fn reply(balance: u64, nonce: u64, code_hash: [u8; 32]) -> AccountProof {
    AccountProof {
        balance: U256([0, 0, 0, balance]),
        nonce,
        code_hash: H256(code_hash),
        storage_hash: H256([6; 32]),
        account_proof: vec![vec![1], vec![2, 3]],
        storage_proof: vec![StorageProof {
            key: U256::from_u64(1),
            proof: vec![vec![9]],
            value: U256::from_u64(2),
        }],
    }
}

#[test]
fn proof_tells_an_empty_account() {
    let (account, storage, hash, is_empty) = get_proof(reply(0, 0, POSEIDON_EMPTY_HASH));
    assert_eq!(account, vec![vec![1], vec![2, 3]]);
    assert_eq!(storage[0].proof, vec![vec![9]]);
    assert_eq!(storage.len(), 1);
    assert_eq!(hash, H256([6; 32]));
    assert!(is_empty);
    assert!(!get_proof(reply(1, 0, POSEIDON_EMPTY_HASH)).3);
    assert!(!get_proof(reply(0, 1, POSEIDON_EMPTY_HASH)).3);
    assert!(!get_proof(reply(0, 0, leader::EMPTY_HASH)).3);
}

#[test]
fn tracing_asks_for_accounts_or_their_changes() {
    let plain = TracingOptions { tracer: Some(BuiltInTracer::PreState), ..Default::default() };
    assert_eq!(tracing_options(), plain);
    assert_eq!(tracing_options().tracer_config, None);
    assert_eq!(tracing_options().timeout, None);
    let diff = tracing_options_diff();
    assert_eq!(diff.tracer, Some(BuiltInTracer::PreState));
    assert_eq!(diff.tracer_config, Some(PreStateConfig { diff_mode: Some(true) }));
    assert_eq!(diff.disable_storage, None);
    assert_ne!(diff, plain);
}

fn signed(transaction_type: Option<u64>, chain_id: Option<u64>, v: u64) -> SignedTransaction {
    let zero = U256::from_u64(0);
    SignedTransaction {
        transaction_type,
        chain_id: chain_id.map(U256::from_u64),
        nonce: zero,
        gas_price: Some(zero),
        max_priority_fee_per_gas: Some(zero),
        max_fee_per_gas: Some(zero),
        gas: zero,
        to: None,
        value: zero,
        input: vec![],
        access_list: Some(vec![AccessItem {
            address: Address([0x11; 20]),
            storage_keys: vec![H256([0x22; 32])],
        }]),
        v,
        r: zero,
        s: zero,
    }
}

#[test]
fn legacy_transaction_is_encoded() {
    let mut expected = vec![0xc9];
    expected.extend([0x80; 9]);
    assert_eq!(encode_transaction(&signed(None, Some(1), 0)), expected);
    let full = SignedTransaction {
        nonce: U256::from_u64(1),
        gas_price: Some(U256::from_u64(2)),
        gas: U256::from_u64(3),
        to: Some(Address([0x44; 20])),
        value: U256::from_u64(5),
        input: vec![6, 7],
        v: 27,
        r: U256::from_u64(8),
        s: U256::from_u64(9),
        ..signed(Some(0), None, 0)
    };
    let mut expected = vec![0xc0 + 31, 1, 2, 3, 0x94];
    expected.extend([0x44; 20]);
    expected.extend([5, 0x82, 6, 7, 27, 8, 9]);
    assert_eq!(encode_transaction(&full), expected);
}

#[test]
fn typed_transaction_is_encoded_with_its_type() {
    let mut list = vec![0xf8, 0x38, 0xf7, 0x94];
    list.extend([0x11; 20]);
    list.extend([0xe1, 0xa0]);
    list.extend([0x22; 32]);
    let mut expected = vec![2, 0xf8, 69, 1, 0x80, 0x80, 0x80, 0x80, 0x80, 0x80, 0x80];
    expected.extend(&list);
    expected.extend([1, 0x80, 0x80]);
    assert_eq!(encode_transaction(&signed(Some(2), Some(1), 1)), expected);
    // A signature that carries the chain id is brought to its parity.
    assert_eq!(encode_transaction(&signed(Some(2), Some(1), 38)), expected);
    let mut older = vec![1, 0xf8, 68, 1, 0x80, 0x80, 0x80, 0x80, 0x80, 0x80];
    older.extend(&list);
    older.extend([1, 0x80, 0x80]);
    assert_eq!(encode_transaction(&signed(Some(1), Some(1), 1)), older);
    let mut without = signed(Some(1), Some(1), 1);
    without.access_list = None;
    assert_eq!(
        encode_transaction(&without),
        vec![1, 0xcb, 1, 0x80, 0x80, 0x80, 0x80, 0x80, 0x80, 0xc0, 1, 0x80, 0x80]
    );
}

#[test]
fn signature_below_the_chain_id_cannot_be_encoded() {
    assert!(can_encode(&signed(None, Some(1), 5)));
    assert!(can_encode(&signed(Some(0), Some(1), 5)));
    assert!(can_encode(&signed(Some(2), None, 5)));
    assert!(can_encode(&signed(Some(2), Some(1), 1)));
    assert!(can_encode(&signed(Some(2), Some(1), 37)));
    assert!(!can_encode(&signed(Some(2), Some(1), 36)));
    assert!(!can_encode(&signed(Some(1), Some(u64::MAX), u64::MAX)));
    let mut wide = signed(Some(2), None, 0);
    wide.chain_id = Some(U256([0, 1, 0, 0]));
    assert!(!can_encode(&wide));
}

#[test]
fn hashed_out_trie_has_the_hash_it_was_made_from() {
    let h = H256([0x5a; 32]);
    let mut trie = create_fully_hashed_out_trie_from_hash(h);
    assert_eq!(trie.hash().0, h.0);
    assert_eq!(trie.items().count(), 1);
    assert!(trie.insert(Nibbles::default(), vec![1u8]).is_err());
    let other = create_fully_hashed_out_trie_from_hash(H256([0x5b; 32]));
    assert_ne!(trie, other);
}

#[test]
fn empty_tries_have_the_empty_hash() {
    assert_eq!(empty_trie().hash().0, EMPTY_TRIE_HASH);
    let tries = PartialTrieState::default();
    assert_eq!(tries.state.hash().0, EMPTY_TRIE_HASH);
    assert_eq!(tries.txn.items().count(), 0);
    assert_eq!(tries.receipt, empty_trie());
}

#[test]
fn copied_tries_have_the_same_nodes() {
    let tries = PartialTrieState {
        state: create_fully_hashed_out_trie_from_hash(H256([7; 32])),
        ..Default::default()
    };
    let copy = tries.clone();
    assert_eq!(copy.state, tries.state);
    assert_eq!(copy.state.hash().0, [7; 32]);
    assert_eq!(copy.txn, tries.txn);
    assert_eq!(copy.receipt.hash().0, EMPTY_TRIE_HASH);
}
