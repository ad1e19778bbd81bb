//! What holds throughout a run, whatever the node answers.
use crate::accounts::{addresses_in, state_after, AccountStateView};
use crate::codec::{be_word, code_decoded, keccak256_digest};
use crate::gather::{start, Phase, Progress, Reply, Trace};
use crate::primitives::{Address, H256, U256};
use crate::sorted_map::{law_listing_in_order, listing};
use crate::transaction::{transaction_rlp, Transaction};
use vstd::prelude::*;

verus! {

/// Every code is filed under its Keccak hash, but the empty code, which is filed
/// under the hash that the state tree knows it by.
pub open spec fn codes_filed(codes: Map<U256, Seq<u8>>, empty_code_hash: U256) -> bool {
    &&& codes.contains_key(empty_code_hash)
    &&& forall|hash: U256| #[trigger]
        codes.contains_key(hash) ==> {
            ||| hash == be_word(keccak256_digest(codes[hash]))
            ||| hash == empty_code_hash && codes[hash] == Seq::<u8>::empty()
        }
}

/// The parts of a witness in the making fit together: the state and the addresses
/// are those of the traces, and each traced transaction has one trace and its own
/// encoding.
pub open spec fn coherent(p: Progress, empty_code_hash: U256) -> bool {
    &&& p.state == state_after(p.traces)
    &&& p.addresses == addresses_in(p.traces)
    &&& p.transactions.len() == p.traces.len()
    &&& p.rlps == p.transactions.map_values(|t: Transaction| transaction_rlp(t.signed@))
    &&& codes_filed(p.codes, empty_code_hash)
}

/// Nothing that was gathered is lost or reordered.
pub open spec fn extends(q: Progress, p: Progress) -> bool {
    &&& q.tx == p.tx
    &&& q.request_miner_from_clique == p.request_miner_from_clique
    &&& p.traces.is_prefix_of(q.traces)
    &&& p.transactions.is_prefix_of(q.transactions)
    &&& p.rlps.is_prefix_of(q.rlps)
    &&& p.addresses.is_prefix_of(q.addresses)
    &&& forall|hash: U256| #[trigger] p.codes.contains_key(hash) ==> q.codes.contains_key(hash)
}

/// A witness is coherent before anything is asked.
pub proof fn law_start_is_coherent(tx: H256, request_miner_from_clique: bool, empty_code_hash: U256)
    ensures
        coherent(start(tx, request_miner_from_clique, empty_code_hash), empty_code_hash),
        start(tx, request_miner_from_clique, empty_code_hash).wf(),
{
    let p = start(tx, request_miner_from_clique, empty_code_hash);
    assert(p.rlps =~= p.transactions.map_values(|t: Transaction| transaction_rlp(t.signed@)));
}

/// Whatever the node answers, a witness stays coherent and keeps what it holds.
pub proof fn law_step_keeps_coherence(p: Progress, reply: Reply, empty_code_hash: U256)
    requires
        coherent(p, empty_code_hash),
        p.wf(),
        p.accepts(reply),
    ensures
        p.next(reply) matches Ok(q) ==> q.wf() && coherent(q, empty_code_hash) && extends(q, p),
{
    if p.next(reply) is Ok {
        let q = p.next(reply)->Ok_0;
        if p.phase is PreTrace {
            assert(q.traces.drop_last() =~= p.traces);
            assert(q.rlps =~= q.transactions.map_values(
                |t: Transaction| transaction_rlp(t.signed@),
            ));
        }
    }
}

/// The code of an account is filed: it denotes bytes, and under their Keccak hash
/// stands code of that hash.
pub open spec fn code_on_file(codes: Map<U256, Seq<u8>>, account: AccountStateView) -> bool {
    account.code matches Some(code) ==> {
        &&& code_decoded(code) matches Ok(bytes)
        &&& codes.contains_key(be_word(keccak256_digest(bytes)))
        &&& be_word(keccak256_digest(codes[be_word(keccak256_digest(bytes))])) == be_word(
            keccak256_digest(bytes),
        )
    }
}

/// The work that lies behind is done: one trace for each transaction that was passed,
/// the code filed of each account that was passed.
pub open spec fn on_schedule(p: Progress) -> bool {
    &&& p.state.dom().finite()
    &&& p.transactions.len() == p.traces.len()
    &&& match p.phase {
        Phase::Target | Phase::Block | Phase::ChainId => p.traces.len() == 0,
        Phase::Transaction(i) => p.traces.len() == i,
        Phase::PreTrace(i) => p.traces.len() == i,
        _ => p.traces.len() == p.hashes.len(),
    }
    &&& match p.phase {
        Phase::Target | Phase::Block | Phase::ChainId => true,
        Phase::Transaction(_) | Phase::PreTrace(_) => true,
        Phase::PreInsert(i) => forall|j: int|
            0 <= j < i ==> code_on_file(p.codes, (#[trigger] listing(p.state)[j]).1),
        _ => forall|address: Address| #[trigger]
            p.state.contains_key(address) ==> code_on_file(p.codes, p.state[address]),
    }
}

/// Nothing lies behind a run that has not begun.
pub proof fn law_start_is_on_schedule(tx: H256, request_miner_from_clique: bool, empty_code_hash: U256)
    ensures
        on_schedule(start(tx, request_miner_from_clique, empty_code_hash)),
{
}

/// Whatever the node answers, no transaction and no code is passed over.
pub proof fn law_step_passes_nothing_over(p: Progress, reply: Reply)
    requires
        on_schedule(p),
        p.wf(),
        p.accepts(reply),
    ensures
        p.next(reply) matches Ok(q) ==> on_schedule(q),
{
    if p.next(reply) is Ok {
        let q = p.next(reply)->Ok_0;
        law_listing_in_order(p.state);
        match (p.phase, reply) {
            (Phase::ChainId, _) => {
                lemma_all_accounts_passed(q);
            },
            (Phase::PreTrace(_), Reply::Trace(Trace::PreState(trace))) => {
                trace.lemma_finite();
                assert(q.state.dom() =~= p.state.dom().union(trace@.dom()));
                lemma_all_accounts_passed(q);
            },
            (Phase::PreInsert(i), _) => {
                let entries = listing(p.state);
                assert forall|j: int| 0 <= j < i + 1 implies code_on_file(
                    q.codes,
                    (#[trigger] entries[j]).1,
                ) by {
                    if j < i {
                        assert(code_on_file(p.codes, entries[j].1));
                    }
                }
                lemma_all_accounts_passed(q);
            },
            _ => {},
        }
    }
}

/// Code is on file of every account once it is of every account in the listing.
proof fn lemma_all_accounts_passed(q: Progress)
    requires
        q.state.dom().finite(),
    ensures
        (forall|j: int|
            0 <= j < listing(q.state).len() ==> code_on_file(
                q.codes,
                (#[trigger] listing(q.state)[j]).1,
            )) ==> (forall|address: Address| #[trigger]
            q.state.contains_key(address) ==> code_on_file(q.codes, q.state[address])),
{
    law_listing_in_order(q.state);
    let entries = listing(q.state);
    if forall|j: int|
        0 <= j < entries.len() ==> code_on_file(q.codes, (#[trigger] entries[j]).1) {
        assert forall|address: Address| #[trigger] q.state.contains_key(address) implies code_on_file(
            q.codes,
            q.state[address],
        ) by {
            let j = choose|j: int| 0 <= j < entries.len() && (#[trigger] entries[j]).0 == address;
            assert(code_on_file(q.codes, entries[j].1));
        }
    }
}

/// When all is gathered, each of the transactions has its trace, and the code of
/// every account of the state is found under its Keccak hash.
pub proof fn law_all_code_on_file_at_the_end(p: Progress, address: Address, code: Seq<char>)
    requires
        on_schedule(p),
        p.phase is Done,
        p.state.contains_key(address),
        p.state[address].code == Some(code),
    ensures
        p.traces.len() == p.hashes.len(),
        code_decoded(code) matches Ok(bytes) && {
            let hash = be_word(keccak256_digest(bytes));
            &&& p.codes.contains_key(hash)
            &&& be_word(keccak256_digest(p.codes[hash])) == hash
        },
{
    assert(code_on_file(p.codes, p.state[address]));
}

/// What is left to do, as numbers that are compared from the first on: the part
/// of the run, the transaction or account in it, and the change of it.
pub open spec fn left(p: Progress) -> (nat, nat, nat) {
    let n = p.hashes.len();
    match p.phase {
        Phase::Target => (10, 0, 0),
        Phase::Block => (9, 0, 0),
        Phase::ChainId => (8, 0, 0),
        Phase::Transaction(i) => (7, (2 * (n - i)) as nat, 0),
        Phase::PreTrace(i) => (7, (2 * (n - i) - 1) as nat, 0),
        Phase::PreInsert(i) => (6, (p.entries().len() - i) as nat, 0),
        Phase::DiffTrace(i) => (5, (2 * (n - i)) as nat, 0),
        Phase::DiffInsert(i, j) => (5, (2 * (n - i) - 1) as nat, (p.pending.len() - j) as nat),
        Phase::Parent => (4, 0, 0),
        Phase::Header => (3, 0, 0),
        Phase::Signer => (2, 0, 0),
        Phase::Hashes => (1, 0, 0),
        Phase::Done => (0, 0, 0),
    }
}

/// `a` is less than `b`, compared from the first number on.
pub open spec fn less(a: (nat, nat, nat), b: (nat, nat, nat)) -> bool {
    ||| a.0 < b.0
    ||| a.0 == b.0 && a.1 < b.1
    ||| a.0 == b.0 && a.1 == b.1 && a.2 < b.2
}

/// Whatever the node answers, each step leaves less to do, so that every run
/// comes to an end.
pub proof fn law_step_leaves_less(p: Progress, reply: Reply)
    requires
        p.wf(),
        p.accepts(reply),
    ensures
        p.next(reply) matches Ok(q) ==> less(left(q), left(p)),
{
}

} // verus!
