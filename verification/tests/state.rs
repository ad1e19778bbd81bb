use leader::accounts::{add_account, add_trace, merge_account, AccountState, Accounts};
use leader::codec::read_word;
use leader::codes::{add_code, contract_codes, record_code};
use leader::errors::HexError;
use leader::primitives::{Address, H256, U256};
use leader::smt::{set_account, AccountRlp, SmtKey, SmtWrite};
use leader::sorted_map::{Duplicate, SortedMap};

fn address(last: u8) -> Address {
    let mut bytes = [0u8; 20];
    bytes[19] = last;
    Address(bytes)
}

fn slot(n: u8) -> H256 {
    H256([n; 32])
}

fn account(balance: u64, storage: Option<Vec<(u8, u8)>>) -> AccountState {
    AccountState {
        balance: Some(U256::from_u64(balance)),
        code: None,
        nonce: Some(U256::from_u64(balance + 1)),
        storage: storage.map(|pairs| {
            SortedMap::from_pairs(pairs.into_iter().map(|(k, v)| (slot(k), slot(v))).collect())
        }),
    }
}

#[test]
fn sorted_map_keeps_one_value_per_key_in_order() {
    let mut map: SortedMap<U256, Vec<u8>> = SortedMap::new();
    assert!(map.is_empty());
    assert_eq!(map.len(), 0);
    map.insert(U256::from_u64(5), vec![5]);
    map.insert(U256::from_u64(1), vec![1]);
    map.insert(U256([0, 0, 0, 1]), vec![9]);
    map.insert(U256::from_u64(3), vec![3]);
    map.insert(U256::from_u64(5), vec![55]);
    assert_eq!(map.len(), 4);
    assert!(!map.is_empty());
    assert_eq!(map.entry(0), (U256::from_u64(1), &vec![1]));
    assert_eq!(map.entry(1), (U256::from_u64(3), &vec![3]));
    assert_eq!(map.entry(2), (U256::from_u64(5), &vec![55]));
    assert_eq!(map.entry(3), (U256([0, 0, 0, 1]), &vec![9]));
    assert_eq!(map.get(&U256::from_u64(3)), Some(&vec![3]));
    assert_eq!(map.get(&U256::from_u64(4)), None);
}

#[test]
fn later_pair_replaces_earlier_one() {
    let map: SortedMap<H256, H256> =
        SortedMap::from_pairs(vec![(slot(2), slot(1)), (slot(1), slot(1)), (slot(2), slot(7))]);
    assert_eq!(map.len(), 2);
    assert_eq!(map.get(&slot(2)), Some(&slot(7)));
    assert_eq!(map.duplicate(), map);
}

#[test]
fn known_account_takes_only_storage_from_later_sighting() {
    let known = account(10, Some(vec![(1, 1), (2, 2)]));
    let seen = account(99, Some(vec![(2, 9), (3, 3)]));
    let merged = merge_account(&known, &seen);
    assert_eq!(merged, account(10, Some(vec![(1, 1), (2, 9), (3, 3)])));
    assert_eq!(merge_account(&known, &account(5, None)), known);
}

#[test]
fn account_without_slots_has_no_storage_once_merged() {
    assert_eq!(merge_account(&account(1, None), &account(2, None)), account(1, None));
    assert_eq!(
        merge_account(&account(1, Some(vec![])), &account(2, Some(vec![]))),
        account(1, None)
    );
    // At its first sighting it is taken over as it is.
    let mut state: Accounts = SortedMap::new();
    add_account(&mut state, address(1), account(1, Some(vec![])));
    assert_eq!(state.get(&address(1)), Some(&account(1, Some(vec![]))));
}

#[test]
fn traces_add_up_to_the_state() {
    let mut state: Accounts = SortedMap::new();
    let mut addresses = vec![];
    let first = SortedMap::from_pairs(vec![
        (address(9), account(9, None)),
        (address(4), account(4, Some(vec![(1, 1)]))),
    ]);
    let second = SortedMap::from_pairs(vec![
        (address(7), account(7, None)),
        (address(4), account(40, Some(vec![(1, 2), (5, 5)]))),
    ]);
    add_trace(&mut state, &mut addresses, &first);
    add_trace(&mut state, &mut addresses, &second);
    assert_eq!(addresses, vec![address(4), address(9), address(4), address(7)]);
    assert_eq!(state.len(), 3);
    assert_eq!(state.entry(0), (address(4), &account(4, Some(vec![(1, 2), (5, 5)]))));
    assert_eq!(state.entry(1), (address(7), &account(7, None)));
    assert_eq!(state.entry(2), (address(9), &account(9, None)));
    // The same trace once more changes no account.
    let before = state.duplicate();
    add_trace(&mut state, &mut addresses, &second);
    assert_eq!(state, before);
}

#[test]
fn code_is_filed_under_its_keccak_hash() {
    let empty = U256([1, 2, 3, 4]);
    let mut codes = contract_codes(empty);
    assert_eq!(codes.len(), 1);
    assert_eq!(codes.get(&empty), Some(&vec![]));
    assert_eq!(add_code(&mut codes, &"0x616263".to_string()), Ok(()));
    let abc = U256([
        0xec44f58fa12d6c45,
        0xc0d1e6e33a64a036,
        0xc7d47ba826c8d667,
        0x4e03657aea45a94f,
    ]);
    assert_eq!(codes.get(&abc), Some(&b"abc".to_vec()));
    assert_eq!(codes.len(), 2);
    // The same code again changes nothing, malformed code neither.
    assert_eq!(add_code(&mut codes, &"0x616263".to_string()), Ok(()));
    assert_eq!(add_code(&mut codes, &"0x6".to_string()), Err(HexError::OddLength));
    assert_eq!(codes.len(), 2);
}

#[test]
fn code_is_recorded_under_a_given_digest() {
    let mut codes = contract_codes(U256::from_u64(0));
    let digest = [7u8; 32];
    record_code(&mut codes, &digest, vec![1, 2]);
    assert_eq!(codes.get(&read_word(&digest)), Some(&vec![1, 2]));
    assert_eq!(codes.get(&U256([0x0707070707070707; 4])), Some(&vec![1, 2]));
}

#[test]
fn account_is_filed_leaf_by_leaf() {
    let rlp = AccountRlp {
        nonce: U256::from_u64(1),
        balance: U256::from_u64(2),
        code_length: U256::from_u64(3),
        code_hash: U256::from_u64(4),
    };
    let storage = vec![
        (U256::from_u64(8), U256::from_u64(80)),
        (U256::from_u64(6), U256::from_u64(0)),
    ];
    let a = address(1);
    let write = |key: SmtKey, value: u64| SmtWrite { key, value: U256::from_u64(value) };
    assert_eq!(
        set_account(a, &rlp, &storage),
        vec![
            write(SmtKey::Balance(a), 2),
            write(SmtKey::Nonce(a), 1),
            write(SmtKey::Code(a), 4),
            write(SmtKey::CodeLength(a), 3),
            write(SmtKey::Storage(a, U256::from_u64(8)), 80),
            write(SmtKey::Storage(a, U256::from_u64(6)), 0),
        ]
    );
    assert_eq!(set_account(a, &rlp, &vec![]).len(), 4);
}

fn apply(writes: &Vec<SmtWrite>) -> Vec<(SmtKey, U256)> {
    let mut tree: Vec<(SmtKey, U256)> = vec![];
    for w in writes {
        tree.retain(|leaf| leaf.0 != w.key);
        if !w.value.is_zero() {
            tree.push((w.key, w.value));
        }
    }
    tree
}

#[test]
fn order_of_slots_leaves_no_trace() {
    let rlp = AccountRlp {
        nonce: U256::from_u64(0),
        balance: U256::from_u64(2),
        code_length: U256::from_u64(0),
        code_hash: U256::from_u64(4),
    };
    let a = address(1);
    let one = (U256::from_u64(1), U256::from_u64(10));
    let two = (U256::from_u64(2), U256::from_u64(20));
    let there = apply(&set_account(a, &rlp, &vec![one, two]));
    let back = apply(&set_account(a, &rlp, &vec![two, one]));
    assert_eq!(there.len(), 4);
    assert_eq!(back.len(), 4);
    for leaf in &there {
        assert!(back.contains(leaf));
    }
}
