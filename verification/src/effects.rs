//! What each answer does to a witness in the making: which parts change, how they
//! relate to the answer, and what is done next.
use crate::accounts::{
    addresses_of, law_addresses_in_order, law_trace_touches_only_what_it_sees, slot_of, Accounts,
};
use crate::block::{
    law_header_fields_needed, law_metadata_are_those_of_the_header, Block, BlockHashes,
    BlockHeader, BlockMetadataView,
};
use crate::codec::{be_word, code_decoded, has_prefix, keccak256_digest};
use crate::errors::{GatherError, NotFound};
use crate::gather::{Gathering, Phase, Progress, Reply, Request, RequestView, Stage, Trace};
use crate::primitives::{be_value, Address, Ranked, H256, U256};
use crate::sorted_map::{law_listing_in_order, listing};
use crate::tracing::{BuiltInTracer, PreStateConfig};
use crate::transaction::{encodable, transaction_rlp, Transaction};
use vstd::prelude::*;

verus! {

/// A witness in the making shows what it holds, part by part.
pub proof fn law_gathering_shown(g: Gathering)
    ensures
        g@.tx == g.tx,
        g@.request_miner_from_clique == g.request_miner_from_clique,
        g@.block_number == g.block_number,
        g@.tx_index == g.tx_index,
        g@.hashes == g.hashes@,
        g@.chain_id == g.chain_id,
        g@.current == g.current,
        g@.addresses == g.addresses@,
        g@.state == g.state@,
        g@.traces.len() == g.traces@.len(),
        forall|i: int| 0 <= i < g.traces@.len() ==> (#[trigger] g@.traces[i]) == g.traces@[i]@,
        g@.transactions == g.transactions@,
        g@.rlps.len() == g.rlps@.len(),
        forall|i: int| 0 <= i < g.rlps@.len() ==> (#[trigger] g@.rlps[i]) == g.rlps@[i]@,
        g@.codes == g.contract_codes@,
        g@.pending.len() == g.pending@.len(),
        forall|i: int|
            0 <= i < g.pending@.len() ==> (#[trigger] g@.pending[i]) == (
                g.pending@[i].0,
                g.pending@[i].1@,
            ),
        g@.parent == g.parent,
        g@.header == g.header,
        g@.metadata is Some <==> g.metadata is Some,
        g.metadata matches Some(known) ==> g@.metadata == Some((known.0@, known.1)),
        g@.block_hashes == g.block_hashes,
        match (g.stage, g@.phase) {
            (Stage::Target, Phase::Target) => true,
            (Stage::Block, Phase::Block) => true,
            (Stage::ChainId, Phase::ChainId) => true,
            (Stage::Transaction(i), Phase::Transaction(n)) => i == n,
            (Stage::PreTrace(i), Phase::PreTrace(n)) => i == n,
            (Stage::PreInsert(i), Phase::PreInsert(n)) => i == n,
            (Stage::DiffTrace(i), Phase::DiffTrace(n)) => i == n,
            (Stage::DiffInsert(i, j), Phase::DiffInsert(n, m)) => i == n && j == m,
            (Stage::Parent, Phase::Parent) => true,
            (Stage::Header, Phase::Header) => true,
            (Stage::Signer, Phase::Signer) => true,
            (Stage::Hashes, Phase::Hashes) => true,
            (Stage::Done, Phase::Done) => true,
            _ => false,
        },
{
}

/// A request shows what it asks.
pub proof fn law_request_shown(request: Request<'_>)
    ensures
        match (request, request@) {
            (Request::GetTransaction(a), RequestView::GetTransaction(b)) => a == b,
            (Request::GetBlock(a), RequestView::GetBlock(b)) => a == b,
            (Request::FetchChainId, RequestView::FetchChainId) => true,
            (Request::TraceTransaction(a, x), RequestView::TraceTransaction(b, y)) => a == b && x
                == y,
            (Request::InsertPreState(a, x), RequestView::InsertPreState(b, y)) => a == b && x@ == y,
            (Request::InsertDiff(a, x), RequestView::InsertDiff(b, y)) => a == b && x@ == y,
            (Request::FetchSigner(a), RequestView::FetchSigner(b)) => a == b,
            (Request::FetchBlockHashes(a), RequestView::FetchBlockHashes(b)) => a == b,
            (Request::Finished, RequestView::Finished) => true,
            _ => false,
        },
{
}

/// Each phase puts the one question that it is named for.
pub proof fn law_request_of_each_phase(p: Progress)
    requires
        p.wf(),
        p.askable(),
    ensures
        match (p.phase, p.request()) {
            (Phase::Target, RequestView::GetTransaction(hash)) => hash == p.tx,
            (Phase::Block, RequestView::GetBlock(number)) => number == p.block_number,
            (Phase::ChainId, RequestView::FetchChainId) => true,
            (Phase::Transaction(i), RequestView::GetTransaction(hash)) => hash == p.hashes[i as int],
            (Phase::PreTrace(i), RequestView::TraceTransaction(hash, options)) => {
                &&& hash == p.hashes[i as int]
                &&& options.tracer == Some(BuiltInTracer::PreState)
                &&& options.tracer_config is None
            },
            (Phase::PreInsert(i), RequestView::InsertPreState(address, account)) => (
                address,
                account,
            ) == listing(p.state)[i as int],
            (Phase::DiffTrace(i), RequestView::TraceTransaction(hash, options)) => {
                &&& hash == p.hashes[i as int]
                &&& options.tracer == Some(BuiltInTracer::PreState)
                &&& options.tracer_config == Some(PreStateConfig { diff_mode: Some(true) })
            },
            (Phase::DiffInsert(_, j), RequestView::InsertDiff(address, account)) => (
                address,
                account,
            ) == p.pending[j as int],
            (Phase::Parent, RequestView::GetBlock(number)) => number + 1 == p.block_number,
            (Phase::Header, RequestView::GetBlock(number)) => number == p.block_number,
            (Phase::Signer, RequestView::FetchSigner(hash)) => p.header matches Some(header)
                && header.hash == Some(hash),
            (Phase::Hashes, RequestView::FetchBlockHashes(number)) => number == p.block_number,
            (Phase::Done, RequestView::Finished) => true,
            _ => false,
        },
{
}

/// A question can be put unless it is for the block before the first.
pub proof fn law_only_the_first_block_has_no_parent(p: Progress)
    ensures
        p.askable() <==> !(p.phase is Parent && p.block_number == 0),
{
}

/// A reply is accepted where it is of the kind that was asked for and holds what is
/// read of it, and nowhere else.
pub proof fn law_accepted_replies(p: Progress, reply: Reply)
    requires
        p.wf(),
    ensures
        p.accepts(reply) <==> match p.phase {
            Phase::Target => reply matches Reply::Transaction(found) && (found is Some ==> {
                &&& found->0.block_number is Some
                &&& found->0.transaction_index is Some
            }),
            Phase::Block => reply is Block,
            Phase::ChainId => reply is ChainId && (p.tx_index as usize) != usize::MAX,
            Phase::Transaction(_) => reply is Transaction,
            Phase::PreTrace(_) => reply matches Reply::Trace(trace) && trace is PreState
                && encodable(p.current->0.signed@),
            Phase::PreInsert(i) => reply is Inserted && (listing(p.state)[i as int].1.code is Some
                ==> has_prefix(listing(p.state)[i as int].1.code->0)),
            Phase::DiffTrace(_) => reply matches Reply::Trace(trace) && trace is Diff,
            Phase::DiffInsert(_, _) => reply is Inserted,
            Phase::Parent => reply is Block && p.block_number != 0,
            Phase::Header => reply matches Reply::Block(found) && (found is Some ==> {
                let header = found->0.header;
                if p.request_miner_from_clique {
                    header.hash is Some
                } else {
                    &&& header.author is Some
                    &&& header.base_fee_per_gas is Some
                    &&& header.logs_bloom is Some
                    &&& header.mix_hash is Some
                }
            }),
            Phase::Signer => reply is Signer && {
                let header = p.header->0;
                &&& header.base_fee_per_gas is Some
                &&& header.logs_bloom is Some
                &&& header.mix_hash is Some
            },
            Phase::Hashes => reply is BlockHashes,
            Phase::Done => false,
        },
{
}

/// What the node lacks is reported as that which it was asked for.
pub proof fn law_lack_is_reported(p: Progress)
    ensures
        p.phase is Target || p.phase is Transaction ==> p.next(Reply::Transaction(None)) == Err::<
            Progress,
            GatherError,
        >(GatherError::NotFound(NotFound::Transaction)),
        p.phase is Block || p.phase is Header ==> p.next(Reply::Block(None)) == Err::<
            Progress,
            GatherError,
        >(GatherError::NotFound(NotFound::Block(p.block_number))),
        p.phase is Parent && p.block_number > 0 ==> {
            &&& p.next(Reply::Block(None)) matches Err(GatherError::NotFound(
                NotFound::Block(number),
            ))
            &&& number + 1 == p.block_number
        },
{
}

/// The transaction to prove tells its block and its place there.
pub proof fn law_target_tells_its_place(p: Progress, found: Transaction)
    requires
        p.phase is Target,
        p.accepts(Reply::Transaction(Some(found))),
    ensures
        p.next(Reply::Transaction(Some(found))) matches Ok(q) && {
            &&& found.block_number == Some(q.block_number)
            &&& found.transaction_index == Some(q.tx_index)
            &&& q.phase is Block
            &&& q == Progress {
                block_number: q.block_number,
                tx_index: q.tx_index,
                phase: q.phase,
                ..p
            }
        },
{
}

/// The block tells its transactions.
pub proof fn law_block_tells_its_transactions(p: Progress, found: Block)
    requires
        p.phase is Block,
    ensures
        p.next(Reply::Block(Some(found))) matches Ok(q) && {
            &&& q.hashes == found.transactions@
            &&& q.phase is ChainId
            &&& q == Progress { hashes: q.hashes, phase: q.phase, ..p }
        },
{
}

/// The transactions that are gathered are the first of the block, up to the one to
/// prove and with it; where the block ends before it, they are all of the block.
pub proof fn law_target_is_last_gathered(p: Progress, chain_id: U256)
    requires
        p.phase is ChainId,
        p.accepts(Reply::ChainId(chain_id)),
    ensures
        p.next(Reply::ChainId(chain_id)) matches Ok(q) && {
            let at = p.tx_index as usize;
            &&& q.hashes.is_prefix_of(p.hashes)
            &&& at < p.hashes.len() ==> {
                &&& q.hashes.len() == at + 1
                &&& q.hashes.last() == p.hashes[at as int]
            }
            &&& at >= p.hashes.len() ==> q.hashes == p.hashes
            &&& q.chain_id == chain_id
            &&& q.phase == if q.hashes.len() > 0 {
                Phase::Transaction(0)
            } else if listing(q.state).len() > 0 {
                Phase::PreInsert(0)
            } else if q.hashes.len() > 0 {
                Phase::DiffTrace(0)
            } else {
                Phase::Parent
            }
            &&& q == Progress { hashes: q.hashes, chain_id: q.chain_id, phase: q.phase, ..p }
        },
{
}

/// A transaction that was fetched is traced next.
pub proof fn law_fetched_is_traced_next(p: Progress, found: Transaction)
    requires
        p.wf(),
        p.phase is Transaction,
    ensures
        p.next(Reply::Transaction(Some(found))) matches Ok(q) && {
            &&& q.current == Some(found)
            &&& q.phase matches Phase::PreTrace(i) && p.phase == Phase::Transaction(i)
            &&& q == Progress { current: q.current, phase: q.phase, ..p }
        },
{
}

/// A traced transaction joins the others at the end, with its encoding and its
/// trace. The accounts of the trace join the state, and their addresses, in
/// ascending order, those that were seen.
pub proof fn law_traced_joins_at_the_end(p: Progress, trace: Accounts)
    requires
        p.wf(),
        p.phase is PreTrace,
        p.accepts(Reply::Trace(Trace::PreState(trace))),
    ensures
        p.next(Reply::Trace(Trace::PreState(trace))) matches Ok(q) && {
            let i = p.phase->PreTrace_0;
            let added = q.addresses.skip(p.addresses.len() as int);
            &&& p.current == Some(q.transactions.last())
            &&& q.transactions.drop_last() == p.transactions
            &&& q.transactions.len() == p.transactions.len() + 1
            &&& q.rlps == p.rlps.push(transaction_rlp(q.transactions.last().signed@))
            &&& q.traces == p.traces.push(trace@)
            &&& p.addresses.is_prefix_of(q.addresses)
            &&& forall|m: int, n: int|
                0 <= m < n < added.len() ==> (#[trigger] added[m]).rank() < (
                #[trigger] added[n]).rank()
            &&& forall|address: Address|
                added.contains(address) <==> #[trigger] trace@.contains_key(address)
            &&& forall|address: Address| #[trigger]
                q.state.contains_key(address) <==> p.state.contains_key(address)
                    || trace@.contains_key(address)
            &&& forall|address: Address|
                p.state.contains_key(address) && !trace@.contains_key(address) ==> (
                #[trigger] q.state[address]) == p.state[address]
            &&& forall|address: Address|
                !p.state.contains_key(address) && trace@.contains_key(address) ==> (
                #[trigger] q.state[address]) == trace@[address]
            &&& forall|address: Address|
                p.state.contains_key(address) && trace@.contains_key(address) ==> {
                    &&& (#[trigger] q.state[address]).balance == p.state[address].balance
                    &&& q.state[address].code == p.state[address].code
                    &&& q.state[address].nonce == p.state[address].nonce
                }
            &&& forall|address: Address, slot: H256|
                p.state.contains_key(address) && trace@.contains_key(address) ==> #[trigger] slot_of(
                    q.state[address],
                    slot,
                ) == if slot_of(trace@[address], slot) is Some {
                    slot_of(trace@[address], slot)
                } else {
                    slot_of(p.state[address], slot)
                }
            &&& q.current is None
            &&& q.phase == if i + 1 < p.hashes.len() {
                Phase::Transaction(i + 1)
            } else if listing(q.state).len() > 0 {
                Phase::PreInsert(0)
            } else if q.hashes.len() > 0 {
                Phase::DiffTrace(0)
            } else {
                Phase::Parent
            }
            &&& q == Progress {
                transactions: q.transactions,
                rlps: q.rlps,
                traces: q.traces,
                addresses: q.addresses,
                state: q.state,
                current: q.current,
                phase: q.phase,
                ..p
            }
        },
{
    let q = p.next(Reply::Trace(Trace::PreState(trace)))->Ok_0;
    trace.lemma_finite();
    law_addresses_in_order(trace@);
    assert(q.addresses.skip(p.addresses.len() as int) =~= addresses_of(trace@));
    assert(q.transactions.drop_last() =~= p.transactions);
    assert forall|address: Address|
        p.state.contains_key(address) && trace@.contains_key(address) implies {
        &&& (#[trigger] q.state[address]).balance == p.state[address].balance
        &&& q.state[address].code == p.state[address].code
        &&& q.state[address].nonce == p.state[address].nonce
    } by {
        law_trace_touches_only_what_it_sees(p.state, trace@, address);
    }
    assert forall|address: Address, slot: H256|
        p.state.contains_key(address) && trace@.contains_key(address) implies #[trigger] slot_of(
        q.state[address],
        slot,
    ) == if slot_of(trace@[address], slot) is Some {
        slot_of(trace@[address], slot)
    } else {
        slot_of(p.state[address], slot)
    } by {
        law_trace_touches_only_what_it_sees(p.state, trace@, address);
    }
}

/// The code of an account that went into the tree is filed under its Keccak hash,
/// whatever it is, and no other code is touched; code that denotes nothing is
/// reported; and the next account follows.
pub proof fn law_code_is_filed(p: Progress)
    requires
        p.wf(),
        p.phase is PreInsert,
        p.accepts(Reply::Inserted),
    ensures
        ({
            let i = p.phase->PreInsert_0;
            let account = listing(p.state)[i as int].1;
            match p.next(Reply::Inserted) {
                Ok(q) => {
                    &&& account.code is None ==> q.codes == p.codes
                    &&& account.code matches Some(code) ==> {
                        &&& code_decoded(code) matches Ok(bytes)
                        &&& q.codes.contains_key(be_word(keccak256_digest(bytes)))
                        &&& q.codes[be_word(keccak256_digest(bytes))] == bytes
                        &&& forall|hash: U256|
                            hash != be_word(keccak256_digest(bytes)) ==> {
                                &&& (#[trigger] q.codes.contains_key(hash)) == p.codes.contains_key(
                                    hash,
                                )
                                &&& p.codes.contains_key(hash) ==> q.codes[hash] == p.codes[hash]
                            }
                    }
                    &&& q.phase == if i + 1 < listing(p.state).len() {
                        Phase::PreInsert(i + 1)
                    } else if q.hashes.len() > 0 {
                        Phase::DiffTrace(0)
                    } else {
                        Phase::Parent
                    }
                    &&& q == Progress { codes: q.codes, phase: q.phase, ..p }
                },
                Err(error) => {
                    &&& account.code matches Some(code)
                    &&& code_decoded(code) matches Err(cause)
                    &&& error == GatherError::Code(cause)
                },
            }
        }),
{
}

/// Of what a transaction changed, all accounts before it come before any account
/// after it, each side in ascending order of the addresses and complete. So what
/// comes last of an address that stands after it is the account after it.
pub proof fn law_accounts_after_come_last(p: Progress, before: Accounts, after: Accounts)
    requires
        p.wf(),
        p.phase is DiffTrace,
    ensures
        p.next(Reply::Trace(Trace::Diff(before, after))) matches Ok(q) && {
            let i = p.phase->DiffTrace_0;
            let middle = before@.dom().len() as int;
            &&& q.pending.len() == middle + after@.dom().len()
            &&& forall|j: int|
                0 <= j < middle ==> {
                    &&& before@.contains_key((#[trigger] q.pending[j]).0)
                    &&& before@[q.pending[j].0] == q.pending[j].1
                }
            &&& forall|j: int|
                middle <= j < q.pending.len() ==> {
                    &&& after@.contains_key((#[trigger] q.pending[j]).0)
                    &&& after@[q.pending[j].0] == q.pending[j].1
                }
            &&& forall|j: int, k: int|
                0 <= j < k < middle || middle <= j < k < q.pending.len() ==> (
                #[trigger] q.pending[j]).0.rank() < (#[trigger] q.pending[k]).0.rank()
            &&& forall|address: Address| #[trigger]
                before@.contains_key(address) ==> exists|j: int|
                    0 <= j < middle && (#[trigger] q.pending[j]).0 == address
            &&& forall|address: Address| #[trigger]
                after@.contains_key(address) ==> exists|j: int|
                    middle <= j < q.pending.len() && (#[trigger] q.pending[j]).0 == address
            &&& forall|j: int|
                0 <= j < q.pending.len() && after@.contains_key((#[trigger] q.pending[j]).0) && (
                forall|k: int|
                    j < k < q.pending.len() ==> (#[trigger] q.pending[k]).0 != q.pending[j].0)
                    ==> q.pending[j].1 == after@[q.pending[j].0]
            &&& q.phase == if q.pending.len() > 0 {
                Phase::DiffInsert(i, 0)
            } else if i + 1 < q.hashes.len() {
                Phase::DiffTrace(i + 1)
            } else {
                Phase::Parent
            }
            &&& q == Progress { pending: q.pending, phase: q.phase, ..p }
        },
{
    let q = p.next(Reply::Trace(Trace::Diff(before, after)))->Ok_0;
    let first = listing(before@);
    let second = listing(after@);
    let middle = first.len() as int;
    before.lemma_finite();
    after.lemma_finite();
    law_listing_in_order(before@);
    law_listing_in_order(after@);
    assert(forall|j: int| 0 <= j < middle ==> (#[trigger] q.pending[j]) == first[j]);
    assert(forall|j: int|
        middle <= j < q.pending.len() ==> (#[trigger] q.pending[j]) == second[j - middle]);
    assert forall|j: int, k: int|
        0 <= j < k < middle || middle <= j < k < q.pending.len() implies (
    #[trigger] q.pending[j]).0.rank() < (#[trigger] q.pending[k]).0.rank() by {
        if j >= middle {
            assert(second[j - middle].0.rank() < second[k - middle].0.rank());
        } else {
            assert(first[j].0.rank() < first[k].0.rank());
        }
    }
    assert forall|address: Address| #[trigger] before@.contains_key(address) implies exists|j: int|
        0 <= j < middle && (#[trigger] q.pending[j]).0 == address by {
        let j = choose|j: int| 0 <= j < first.len() && (#[trigger] first[j]).0 == address;
        assert(q.pending[j].0 == address);
    }
    assert forall|address: Address| #[trigger] after@.contains_key(address) implies exists|j: int|
        middle <= j < q.pending.len() && (#[trigger] q.pending[j]).0 == address by {
        let j = choose|j: int| 0 <= j < second.len() && (#[trigger] second[j]).0 == address;
        assert(q.pending[j + middle].0 == address);
    }
}

/// A change that went into the tree is followed by the next one, and after the last
/// by the changes of the next transaction.
pub proof fn law_changes_follow_each_other(p: Progress)
    requires
        p.wf(),
        p.phase is DiffInsert,
    ensures
        p.next(Reply::Inserted) matches Ok(q) && {
            let i = p.phase->DiffInsert_0;
            let j = p.phase->DiffInsert_1;
            &&& q.phase == if j + 1 < p.pending.len() {
                Phase::DiffInsert(i, j + 1)
            } else if i + 1 < q.hashes.len() {
                Phase::DiffTrace(i + 1)
            } else {
                Phase::Parent
            }
            &&& q == Progress { phase: q.phase, ..p }
        },
{
}

/// The block before is kept, and the block itself is asked for again.
pub proof fn law_parent_is_kept(p: Progress, found: Block)
    requires
        p.phase is Parent,
    ensures
        p.next(Reply::Block(Some(found))) matches Ok(q) && {
            &&& q.parent == Some(found)
            &&& q.phase is Header
            &&& q == Progress { parent: q.parent, phase: q.phase, ..p }
        },
{
}

/// The metadata are those of the block's header, with this beneficiary.
pub open spec fn describes(
    metadata: (BlockMetadataView, H256),
    p: Progress,
    header: BlockHeader,
    beneficiary: Address,
) -> bool {
    &&& metadata.1 == header.state_root
    &&& metadata.0.block_beneficiary == beneficiary
    &&& metadata.0.block_chain_id == p.chain_id
    &&& metadata.0.block_number.value() == p.block_number
    &&& metadata.0.block_timestamp == header.timestamp
    &&& metadata.0.block_difficulty == header.difficulty
    &&& metadata.0.block_gaslimit == header.gas_limit
    &&& metadata.0.block_gas_used == header.gas_used
    &&& Some(metadata.0.block_base_fee) == header.base_fee_per_gas
    &&& Some(metadata.0.block_random) == header.mix_hash
    &&& metadata.0.block_bloom.len() == 8
    &&& forall|i: int|
        0 <= i < 8 ==> (#[trigger] metadata.0.block_bloom[i]).value() == be_value(
            (header.logs_bloom->0).0@.subrange(i * 32, (i + 1) * 32),
        )
}

/// Where authors are paid, the header gives all metadata at once; where signers take
/// turns, the signer of the block is asked for first.
pub proof fn law_header_gives_metadata(p: Progress, found: Block)
    requires
        p.wf(),
        p.phase is Header,
        p.accepts(Reply::Block(Some(found))),
    ensures
        p.next(Reply::Block(Some(found))) matches Ok(q) && {
            &&& q.header == Some(found.header)
            &&& p.request_miner_from_clique ==> {
                &&& q.phase is Signer
                &&& q == Progress { header: q.header, phase: q.phase, ..p }
            }
            &&& !p.request_miner_from_clique ==> {
                &&& q.phase is Hashes
                &&& q.metadata matches Some(metadata)
                &&& found.header.author matches Some(author)
                &&& metadata.1 == found.header.state_root
                &&& metadata.0.block_beneficiary == author
                &&& metadata.0.block_chain_id == p.chain_id
                &&& metadata.0.block_number.value() == p.block_number
                &&& metadata.0.block_timestamp == found.header.timestamp
                &&& metadata.0.block_difficulty == found.header.difficulty
                &&& metadata.0.block_gaslimit == found.header.gas_limit
                &&& metadata.0.block_gas_used == found.header.gas_used
                &&& Some(metadata.0.block_base_fee) == found.header.base_fee_per_gas
                &&& Some(metadata.0.block_random) == found.header.mix_hash
                &&& metadata.0.block_bloom.len() == 8
                &&& forall|i: int|
                    0 <= i < 8 ==> (#[trigger] metadata.0.block_bloom[i]).value() == be_value(
                        (found.header.logs_bloom->0).0@.subrange(i * 32, (i + 1) * 32),
                    )
                &&& q == Progress {
                    header: q.header,
                    metadata: q.metadata,
                    phase: q.phase,
                    ..p
                }
            }
        },
{
    law_header_fields_needed(found.header, p.request_miner_from_clique);
    if !p.request_miner_from_clique {
        law_metadata_are_those_of_the_header(
            p.block_number,
            p.chain_id,
            found.header,
            found.header.author->0,
        );
    }
}

/// The signer is the beneficiary of the block whose header is kept.
pub proof fn law_signer_is_beneficiary(p: Progress, signer: Address)
    requires
        p.wf(),
        p.phase is Signer,
        p.accepts(Reply::Signer(signer)),
    ensures
        p.next(Reply::Signer(signer)) matches Ok(q) && {
            &&& q.phase is Hashes
            &&& q.metadata matches Some(metadata)
            &&& metadata.1 == p.header->0.state_root
            &&& metadata.0.block_beneficiary == signer
            &&& metadata.0.block_chain_id == p.chain_id
            &&& metadata.0.block_number.value() == p.block_number
            &&& metadata.0.block_timestamp == p.header->0.timestamp
            &&& metadata.0.block_difficulty == p.header->0.difficulty
            &&& metadata.0.block_gaslimit == p.header->0.gas_limit
            &&& metadata.0.block_gas_used == p.header->0.gas_used
            &&& Some(metadata.0.block_base_fee) == p.header->0.base_fee_per_gas
            &&& Some(metadata.0.block_random) == p.header->0.mix_hash
            &&& metadata.0.block_bloom.len() == 8
            &&& forall|i: int|
                0 <= i < 8 ==> (#[trigger] metadata.0.block_bloom[i]).value() == be_value(
                    (p.header->0.logs_bloom->0).0@.subrange(i * 32, (i + 1) * 32),
                )
            &&& q == Progress { metadata: q.metadata, phase: q.phase, ..p }
        },
{
    law_metadata_are_those_of_the_header(p.block_number, p.chain_id, p.header->0, signer);
}

/// The hashes of the blocks are kept, and then all is gathered.
pub proof fn law_block_hashes_are_kept(p: Progress, hashes: BlockHashes)
    requires
        p.phase is Hashes,
    ensures
        p.next(Reply::BlockHashes(hashes)) matches Ok(q) && {
            &&& q.block_hashes == Some(hashes)
            &&& q.phase is Done
            &&& q == Progress { block_hashes: q.block_hashes, phase: q.phase, ..p }
        },
{
}

} // verus!
