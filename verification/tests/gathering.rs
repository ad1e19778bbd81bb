use leader::accounts::{AccountState, Accounts};
use leader::block::{Block, BlockHashes, BlockHeader};
use leader::errors::{GatherError, HexError, NotFound};
use leader::gather::{Gathering, Reply, Request, Trace, Witness};
use leader::gather_witness;
use leader::primitives::{Address, Bloom, H256, U256};
use leader::sorted_map::SortedMap;
use leader::tracing::{tracing_options, tracing_options_diff};
use leader::transaction::{encode_transaction, SignedTransaction, Transaction};
use mpt_trie::partial_trie::PartialTrie;

fn hash(n: u8) -> H256 {
    H256([n; 32])
}

fn address(n: u8) -> Address {
    Address([n; 20])
}

fn account(balance: u64, code: Option<&str>) -> AccountState {
    AccountState {
        balance: Some(U256::from_u64(balance)),
        code: code.map(|c| c.to_string()),
        nonce: None,
        storage: None,
    }
}

fn transaction(n: u8, index: u64) -> Transaction {
    let word = U256::from_u64(n as u64);
    Transaction {
        hash: hash(n),
        block_number: Some(100),
        transaction_index: Some(index),
        signed: SignedTransaction {
            transaction_type: None,
            chain_id: None,
            nonce: word,
            gas_price: Some(word),
            max_priority_fee_per_gas: None,
            max_fee_per_gas: None,
            gas: word,
            to: Some(address(n)),
            value: word,
            input: vec![n],
            access_list: None,
            v: 27,
            r: word,
            s: word,
        },
    }
}

fn header() -> BlockHeader {
    BlockHeader {
        hash: Some(hash(0xb0)),
        author: Some(address(0xa0)),
        state_root: hash(0xb1),
        gas_used: U256::from_u64(1),
        gas_limit: U256::from_u64(2),
        logs_bloom: Some(Bloom([0; 256])),
        timestamp: U256::from_u64(3),
        difficulty: U256::from_u64(4),
        mix_hash: Some(hash(0xb2)),
        base_fee_per_gas: Some(U256::from_u64(5)),
    }
}

fn block() -> Block {
    Block { header: header(), transactions: vec![hash(1), hash(2), hash(3)] }
}

fn pre_state(n: u8) -> Accounts {
    if n == 1 {
        SortedMap::from_pairs(vec![
            (address(20), account(20, Some("0x616263"))),
            (address(10), account(10, None)),
        ])
    } else {
        SortedMap::from_pairs(vec![
            (address(15), account(15, Some("0x"))),
            (address(10), account(99, Some("0x00"))),
        ])
    }
}

fn diff(n: u8) -> (Accounts, Accounts) {
    if n == 1 {
        (
            SortedMap::from_pairs(vec![(address(20), account(20, None))]),
            SortedMap::from_pairs(vec![
                (address(30), account(30, None)),
                (address(20), account(21, None)),
            ]),
        )
    } else {
        (SortedMap::new(), SortedMap::new())
    }
}

/// What was asked, in short.
fn name(request: &Request) -> String {
    match request {
        Request::GetTransaction(h) => format!("transaction {}", h.0[0]),
        Request::GetBlock(n) => format!("block {}", n),
        Request::FetchChainId => "chain".to_string(),
        Request::TraceTransaction(h, options) => {
            if *options == tracing_options() {
                format!("trace {}", h.0[0])
            } else {
                assert_eq!(*options, tracing_options_diff());
                format!("diff {}", h.0[0])
            }
        }
        Request::InsertPreState(a, s) => format!("insert {} {}", a.0[0], s.balance.unwrap().0[0]),
        Request::InsertDiff(a, s) => format!("change {} {}", a.0[0], s.balance.unwrap().0[0]),
        Request::FetchSigner(h) => format!("signer {}", h.0[0]),
        Request::FetchBlockHashes(n) => format!("hashes {}", n),
        Request::Finished => "finished".to_string(),
    }
}

fn answer(request: &Request) -> Reply {
    match request {
        Request::GetTransaction(h) => {
            Reply::Transaction(Some(transaction(h.0[0], h.0[0] as u64 - 1)))
        }
        Request::GetBlock(_) => Reply::Block(Some(block())),
        Request::FetchChainId => Reply::ChainId(U256::from_u64(1337)),
        Request::TraceTransaction(h, options) => {
            if *options == tracing_options() {
                Reply::Trace(Trace::PreState(pre_state(h.0[0])))
            } else {
                let (pre, post) = diff(h.0[0]);
                Reply::Trace(Trace::Diff(pre, post))
            }
        }
        Request::FetchSigner(_) => Reply::Signer(address(0xcc)),
        Request::FetchBlockHashes(_) => {
            Reply::BlockHashes(BlockHashes { prev_hashes: vec![hash(7)], cur_hash: hash(8) })
        }
        _ => Reply::Inserted,
    }
}

/// Runs until the end, an error, or the request by the given name, which is
/// answered with the given reply.
fn run(
    clique: bool,
    asked: &mut Vec<String>,
    at: &str,
    instead: Option<Reply>,
) -> Result<Gathering, GatherError> {
    let mut gathering = gather_witness(hash(2), clique, U256::from_u64(77));
    let mut instead = instead;
    loop {
        assert!(gathering.can_ask());
        let (label, mut reply) = {
            let request = gathering.request();
            (name(&request), answer(&request))
        };
        if label == "finished" {
            return Ok(gathering);
        }
        if label == at {
            if let Some(other) = instead.take() {
                reply = other;
            }
        }
        asked.push(label);
        assert!(gathering.accepts(&reply));
        gathering = gathering.step(reply)?;
    }
}

fn opening() -> Vec<&'static str> {
    vec![
        "transaction 2", "block 100", "chain", "transaction 1", "trace 1", "transaction 2",
        "trace 2", "insert 10 10", "insert 15 15", "insert 20 20", "diff 1", "change 20 20",
        "change 20 21", "change 30 30", "diff 2", "block 99", "block 100",
    ]
}

#[test]
fn requests_follow_the_script() {
    let mut asked = vec![];
    run(false, &mut asked, "", None).unwrap();
    let mut expected = opening();
    expected.push("hashes 100");
    assert_eq!(asked, expected);
}

#[test]
fn signer_is_asked_for_where_signers_take_turns() {
    let mut asked = vec![];
    let witness = run(true, &mut asked, "", None).unwrap().finish();
    let mut expected = opening();
    expected.push("signer 176");
    expected.push("hashes 100");
    assert_eq!(asked, expected);
    assert_eq!(witness.metadata.block_beneficiary, address(0xcc));
}

#[test]
fn witness_holds_what_was_answered() {
    let witness: Witness = run(false, &mut vec![], "", None).unwrap().finish();
    assert_eq!(witness.block_number, 100);
    assert_eq!(witness.chain_id, U256::from_u64(1337));
    assert_eq!(
        witness.addresses,
        vec![address(10), address(20), address(10), address(15)]
    );
    assert_eq!(witness.state.len(), 3);
    assert_eq!(witness.state.get(&address(10)), Some(&account(10, None)));
    assert_eq!(witness.traces, vec![pre_state(1), pre_state(2)]);
    assert_eq!(witness.transactions, vec![transaction(1, 0), transaction(2, 1)]);
    assert_eq!(
        witness.rlps,
        vec![
            encode_transaction(&transaction(1, 0).signed),
            encode_transaction(&transaction(2, 1).signed),
        ]
    );
    assert_eq!(witness.contract_codes.len(), 3);
    assert_eq!(witness.contract_codes.get(&U256::from_u64(77)), Some(&vec![]));
    let abc = U256([
        0xec44f58fa12d6c45,
        0xc0d1e6e33a64a036,
        0xc7d47ba826c8d667,
        0x4e03657aea45a94f,
    ]);
    assert_eq!(witness.contract_codes.get(&abc), Some(&b"abc".to_vec()));
    assert_eq!(witness.parent, block());
    assert_eq!(witness.metadata.block_beneficiary, address(0xa0));
    assert_eq!(witness.metadata.block_number, U256::from_u64(100));
    assert_eq!(witness.state_root, hash(0xb1));
    assert_eq!(witness.block_hashes.cur_hash, hash(8));
    assert_eq!(witness.transactions_trie.hash().0, leader::EMPTY_TRIE_HASH);
    assert_eq!(witness.receipts_trie.hash().0, leader::EMPTY_TRIE_HASH);
    assert!(witness.gas_used.is_zero());
    assert_eq!(witness.bloom, Bloom([0; 256]));
    assert!(witness.withdrawals.is_empty());
}

fn error_of(at: &str, instead: Reply) -> GatherError {
    match run(false, &mut vec![], at, Some(instead)) {
        Ok(_) => panic!("no error"),
        Err(error) => error,
    }
}

#[test]
fn unknown_transaction_ends_the_run() {
    let lack = GatherError::NotFound(NotFound::Transaction);
    assert_eq!(error_of("transaction 2", Reply::Transaction(None)), lack);
    assert_eq!(error_of("transaction 1", Reply::Transaction(None)), lack);
}

#[test]
fn unknown_block_ends_the_run() {
    let lack = |n: u64| GatherError::NotFound(NotFound::Block(n));
    assert_eq!(error_of("block 100", Reply::Block(None)), lack(100));
    assert_eq!(error_of("block 99", Reply::Block(None)), lack(99));
}

#[test]
fn malformed_code_ends_the_run_at_its_account() {
    let broken = SortedMap::from_pairs(vec![
        (address(10), account(10, Some("0x1"))),
        (address(5), account(5, None)),
    ]);
    let mut asked = vec![];
    let outcome = run(false, &mut asked, "trace 1", Some(Reply::Trace(Trace::PreState(broken))));
    assert!(matches!(outcome, Err(GatherError::Code(HexError::OddLength))));
    assert_eq!(asked.last().unwrap(), "insert 10 10");
}

#[test]
fn empty_block_goes_straight_to_its_parent() {
    let mut asked = vec![];
    let empty = Block { header: header(), transactions: vec![] };
    let witness = run(false, &mut asked, "block 100", Some(Reply::Block(Some(empty))))
        .unwrap()
        .finish();
    assert_eq!(
        asked,
        vec!["transaction 2", "block 100", "chain", "block 99", "block 100", "hashes 100"]
    );
    assert!(witness.state.is_empty());
    assert_eq!(witness.contract_codes.len(), 1);
}

#[test]
fn target_behind_the_block_takes_all_of_it() {
    let mut asked = vec![];
    let far = transaction(2, 50);
    run(false, &mut asked, "transaction 2", Some(Reply::Transaction(Some(far)))).unwrap();
    assert_eq!(asked.iter().filter(|a| a.starts_with("trace")).count(), 3);
    assert_eq!(asked.iter().filter(|a| a.starts_with("diff")).count(), 3);
}

#[test]
fn first_block_has_no_parent_to_ask_for() {
    let mut gathering = gather_witness(hash(2), false, U256::from_u64(77));
    let mut target = transaction(2, 1);
    target.block_number = Some(0);
    gathering = gathering.step(Reply::Transaction(Some(target))).unwrap();
    let empty = Block { header: header(), transactions: vec![] };
    gathering = gathering.step(Reply::Block(Some(empty))).unwrap();
    assert!(gathering.can_ask());
    gathering = gathering.step(Reply::ChainId(U256::from_u64(1))).unwrap();
    assert!(!gathering.can_ask());
    assert!(!gathering.accepts(&Reply::Block(None)));
}

#[test]
fn replies_that_hold_too_little_are_not_accepted() {
    let gathering = gather_witness(hash(2), false, U256::from_u64(77));
    let mut pending = transaction(2, 1);
    pending.block_number = None;
    assert!(!gathering.accepts(&Reply::Transaction(Some(pending))));
    let mut pending = transaction(2, 1);
    pending.transaction_index = None;
    assert!(!gathering.accepts(&Reply::Transaction(Some(pending))));
    assert!(gathering.accepts(&Reply::Transaction(None)));
    assert!(!gathering.accepts(&Reply::Inserted));
    assert!(!gathering.accepts(&Reply::Trace(Trace::Other)));
    let mut last = transaction(2, 1);
    last.transaction_index = Some(u64::MAX);
    let gathering = gathering.step(Reply::Transaction(Some(last))).unwrap();
    let gathering = gathering.step(Reply::Block(Some(block()))).unwrap();
    assert!(!gathering.accepts(&Reply::ChainId(U256::from_u64(1))));
}

#[test]
fn encoding_and_trace_are_taken_up_as_given() {
    let mut gathering = gather_witness(hash(2), false, U256::from_u64(77));
    gathering.add_traced(transaction(1, 0), vec![1, 2, 3], pre_state(1));
    assert_eq!(gathering.rlps, vec![vec![1, 2, 3]]);
    assert_eq!(gathering.traces, vec![pre_state(1)]);
    assert_eq!(gathering.state, pre_state(1));
    assert_eq!(gathering.addresses, vec![address(10), address(20)]);
}

#[test]
fn parts_fit_together_at_every_step() {
    let empty = U256::from_u64(77);
    let mut gathering = gather_witness(hash(2), true, empty);
    let mut codes: usize = 0;
    let mut steps: usize = 0;
    loop {
        assert_eq!(gathering.rlps.len(), gathering.transactions.len());
        assert_eq!(gathering.traces.len(), gathering.transactions.len());
        for (txn, rlp) in gathering.transactions.iter().zip(&gathering.rlps) {
            assert_eq!(&encode_transaction(&txn.signed), rlp);
        }
        assert_eq!(gathering.tx, hash(2));
        assert!(gathering.contract_codes.len() >= codes);
        codes = gathering.contract_codes.len();
        for i in 0..codes {
            let (key, code) = gathering.contract_codes.entry(i);
            let digest = leader::codec::read_word(&ethers::utils::keccak256(code));
            assert!(key == digest || (key == empty && code.is_empty()));
        }
        // A node that answers alike for every transaction.
        let reply = match gathering.request() {
            Request::Finished => break,
            Request::GetTransaction(_) => Reply::Transaction(Some(transaction(1, 1))),
            other => answer(&other),
        };
        gathering = gathering.step(reply).unwrap();
        steps += 1;
    }
    assert_eq!(steps, opening().len() + 2);
    assert_eq!(gathering.transactions, vec![transaction(1, 1), transaction(1, 1)]);
}
