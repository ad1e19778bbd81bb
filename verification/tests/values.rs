use leader::codec::{decode_code, is_prefixed, read_word};
use leader::errors::{GatherError, HexError, NotFound};
use leader::primitives::{Address, Ranked, H256, U256};
use leader::{EMPTY_HASH, EMPTY_TRIE_HASH, POSEIDON_EMPTY_HASH};

fn address(last: u8) -> Address {
    let mut bytes = [0u8; 20];
    bytes[19] = last;
    Address(bytes)
}

#[test]
fn lack_is_reported_in_words() {
    assert_eq!(NotFound::Transaction.message(), "Transaction not found.");
    assert_eq!(NotFound::Block(0).message(), "Block not found. Block number: 0");
    assert_eq!(NotFound::Block(9).message(), "Block not found. Block number: 9");
    assert_eq!(NotFound::Block(10).message(), "Block not found. Block number: 10");
    assert_eq!(
        NotFound::Block(18446744073709551615).message(),
        "Block not found. Block number: 18446744073709551615"
    );
    assert_ne!(
        GatherError::NotFound(NotFound::Transaction),
        GatherError::Code(HexError::OddLength)
    );
}

#[test]
fn code_is_decoded_behind_its_prefix() {
    assert_eq!(decode_code(&"0x6080FFfe".to_string()), Ok(vec![0x60, 0x80, 0xff, 0xfe]));
    assert_eq!(decode_code(&"0x".to_string()), Ok(vec![]));
    // The prefix is cut off unread.
    assert_eq!(decode_code(&"zz01".to_string()), Ok(vec![1]));
    assert_eq!(decode_code(&"\u{e9}0a".to_string()), Ok(vec![10]));
}

#[test]
fn malformed_code_is_refused() {
    assert_eq!(decode_code(&"0x123".to_string()), Err(HexError::OddLength));
    // An odd number of digits is reported before a bad one.
    assert_eq!(decode_code(&"0xg12".to_string()), Err(HexError::OddLength));
    assert_eq!(
        decode_code(&"0x12g4h6".to_string()),
        Err(HexError::InvalidHexCharacter { c: 'g', index: 2 })
    );
    assert_eq!(
        decode_code(&"0x1/34".to_string()),
        Err(HexError::InvalidHexCharacter { c: '/', index: 1 })
    );
    assert_eq!(
        decode_code(&"0x\u{e9}".to_string()),
        Err(HexError::InvalidHexCharacter { c: '\u{c3}', index: 0 })
    );
}

#[test]
fn prefix_must_end_between_characters() {
    assert!(is_prefixed(&"0x".to_string()));
    assert!(is_prefixed(&"\u{e9}".to_string()));
    assert!(!is_prefixed(&"0".to_string()));
    assert!(!is_prefixed(&"".to_string()));
    assert!(!is_prefixed(&"0\u{e9}".to_string()));
}

#[test]
fn words_are_read_big_endian() {
    assert_eq!(read_word(&[]), U256([0, 0, 0, 0]));
    assert_eq!(read_word(&[1, 2]), U256([258, 0, 0, 0]));
    assert_eq!(read_word(&[1, 0, 0, 0, 0, 0, 0, 0, 5]), U256([5, 1, 0, 0]));
    assert_eq!(
        read_word(&POSEIDON_EMPTY_HASH),
        U256([
            10052403398432742521,
            15195891732843337299,
            2019258788108304834,
            4300613462594703212,
        ])
    );
}

#[test]
fn empty_hashes_are_those_of_keccak() {
    assert_eq!(ethers::utils::keccak256([]), EMPTY_HASH);
    assert_eq!(ethers::utils::keccak256([0x80]), EMPTY_TRIE_HASH);
}

#[test]
fn order_goes_by_the_number() {
    assert!(address(1).precedes(&address(2)));
    assert!(!address(2).precedes(&address(2)));
    let mut high = [0u8; 20];
    high[0] = 1;
    assert!(address(255).precedes(&Address(high)));
    assert!(!Address(high).precedes(&address(255)));
    assert!(address(3).same(&address(3)));
    assert!(!address(3).same(&address(4)));
    assert!(U256([9, 0, 0, 0]).precedes(&U256([0, 1, 0, 0])));
    assert!(U256([9, 9, 9, 0]).precedes(&U256([0, 0, 0, 1])));
    assert!(!U256([0, 0, 1, 0]).precedes(&U256([9, 9, 0, 0])));
    assert!(U256([1, 2, 3, 4]).same(&U256([1, 2, 3, 4])));
    assert!(!U256([1, 2, 3, 4]).same(&U256([1, 2, 3, 5])));
    assert!(H256([1; 32]).precedes(&H256([2; 32])));
    assert!(U256::from_u64(7).same(&U256([7, 0, 0, 0])));
    assert!(U256::from_u64(0).is_zero());
    assert!(!U256([0, 0, 0, 1]).is_zero());
}
