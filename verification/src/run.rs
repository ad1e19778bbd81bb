//! Whole runs: what is asked, and what is gathered, when a node that knows the
//! chain answers every request.
use crate::accounts::{addresses_in, state_after, AccountStateView, Accounts, AccountsView};
use crate::block::{
    beneficiary_of, complete, law_metadata_are_those_of_the_header, metadata_of, names_beneficiary, Beneficiary, Block, BlockHashes,
    BlockMetadataView,
};
use crate::codec::{code_decoded, has_prefix};
use crate::codes::with_code;
use crate::coherence::code_on_file;
use crate::effects::describes;
use crate::errors::{GatherError, HexError, NotFound};
use crate::gather::{start, up_to, Phase, Progress, Reply, RequestView, Trace};
use crate::primitives::{Address, H256, U256};
use crate::sorted_map::{law_listing_in_order, listing};
use crate::tracing::{diff_options, pre_state_options, BuiltInTracer, PreStateConfig};
use crate::transaction::{encodable, transaction_rlp, Transaction};
use vstd::prelude::*;

verus! {

/// A node that gives the same answer whenever it is asked the same.
pub struct Chain {
    pub transaction: spec_fn(H256) -> Option<Transaction>,
    pub block: spec_fn(u64) -> Option<Block>,
    pub chain_id: U256,
    pub pre_state: spec_fn(H256) -> Accounts,
    pub diff: spec_fn(H256) -> (Accounts, Accounts),
    pub signer: spec_fn(H256) -> Address,
    pub block_hashes: spec_fn(u64) -> BlockHashes,
}

/// What a run sets out to gather.
pub struct Task {
    pub tx: H256,
    pub request_miner_from_clique: bool,
    pub empty_code_hash: U256,
}

/// The code that is known after the code of accounts was recorded, one after the
/// other.
pub open spec fn codes_after(
    codes: Map<U256, Seq<u8>>,
    entries: Seq<(Address, AccountStateView)>,
) -> Map<U256, Seq<u8>>
    decreases entries.len(),
{
    if entries.len() == 0 {
        codes
    } else {
        let known = codes_after(codes, entries.drop_last());
        match entries.last().1.code {
            Some(code) => match code_decoded(code) {
                Ok(bytes) => with_code(known, bytes),
                Err(_) => known,
            },
            None => known,
        }
    }
}

impl Chain {
    /// What the node answers.
    pub open spec fn answer(self, request: RequestView) -> Reply {
        match request {
            RequestView::GetTransaction(hash) => Reply::Transaction((self.transaction)(hash)),
            RequestView::GetBlock(number) => Reply::Block((self.block)(number)),
            RequestView::FetchChainId => Reply::ChainId(self.chain_id),
            RequestView::TraceTransaction(hash, options) => if options == diff_options() {
                Reply::Trace(Trace::Diff((self.diff)(hash).0, (self.diff)(hash).1))
            } else {
                Reply::Trace(Trace::PreState((self.pre_state)(hash)))
            },
            RequestView::FetchSigner(hash) => Reply::Signer((self.signer)(hash)),
            RequestView::FetchBlockHashes(number) => Reply::BlockHashes((self.block_hashes)(number)),
            _ => Reply::Inserted,
        }
    }

    /// The number of the block that holds the transaction.
    pub open spec fn number(self, task: Task) -> u64 {
        (self.transaction)(task.tx)->0.block_number->0
    }

    /// The block that holds the transaction.
    pub open spec fn home(self, task: Task) -> Block {
        (self.block)(self.number(task))->0
    }

    /// The transactions of the block, up to the one to prove.
    pub open spec fn hashes(self, task: Task) -> Seq<H256> {
        up_to(
            self.home(task).transactions@,
            (self.transaction)(task.tx)->0.transaction_index->0,
        )
    }

    /// The accounts that these transactions find, transaction by transaction.
    pub open spec fn traces(self, task: Task) -> Seq<AccountsView> {
        self.hashes(task).map_values(|hash: H256| (self.pre_state)(hash)@)
    }

    /// These transactions.
    pub open spec fn transactions(self, task: Task) -> Seq<Transaction> {
        self.hashes(task).map_values(|hash: H256| (self.transaction)(hash)->0)
    }

    /// Their encodings.
    pub open spec fn rlps(self, task: Task) -> Seq<Seq<u8>> {
        self.hashes(task).map_values(
            |hash: H256| transaction_rlp((self.transaction)(hash)->0.signed@),
        )
    }

    /// The accounts before these transactions, in ascending order.
    pub open spec fn entries(self, task: Task) -> Seq<(Address, AccountStateView)> {
        listing(state_after(self.traces(task)))
    }

    /// What the `i`-th of these transactions changes: first the accounts before
    /// it, then those after it.
    pub open spec fn changes(self, task: Task, i: nat) -> Seq<(Address, AccountStateView)> {
        let diff = (self.diff)(self.hashes(task)[i as int]);
        listing(diff.0@) + listing(diff.1@)
    }

    /// The code that is known at the end.
    pub open spec fn codes(self, task: Task) -> Map<U256, Seq<u8>> {
        codes_after(map![task.empty_code_hash => Seq::<u8>::empty()], self.entries(task))
    }

    /// The one to whom the block pays.
    pub open spec fn beneficiary(self, task: Task) -> Address {
        match beneficiary_of(self.home(task).header, task.request_miner_from_clique) {
            Beneficiary::Author(author) => author,
            Beneficiary::SignerOf(hash) => (self.signer)(hash),
        }
    }

    /// The metadata of the block, and the state root that it ends with.
    pub open spec fn metadata(self, task: Task) -> (BlockMetadataView, H256) {
        let header = self.home(task).header;
        (
            metadata_of(self.number(task), self.chain_id, header, self.beneficiary(task)),
            header.state_root,
        )
    }

    /// The node has all that the run asks for, in the form that the run reads.
    pub open spec fn serves(self, task: Task) -> bool {
        &&& (self.transaction)(task.tx) matches Some(target) && target.block_number is Some
            && target.transaction_index is Some && (target.transaction_index->0 as usize)
            < usize::MAX
        &&& self.number(task) > 0
        &&& (self.block)(self.number(task)) is Some
        &&& (self.block)((self.number(task) - 1) as u64) is Some
        &&& complete(self.home(task).header)
        &&& names_beneficiary(self.home(task).header, task.request_miner_from_clique)
        &&& forall|i: int|
            #![trigger self.hashes(task)[i]]
            0 <= i < self.hashes(task).len() ==> {
                let found = (self.transaction)(self.hashes(task)[i]);
                found is Some && encodable(found->0.signed@)
            }
        &&& forall|i: int|
            #![trigger self.entries(task)[i]]
            0 <= i < self.entries(task).len() ==> (self.entries(task)[i].1.code matches Some(
                code,
            ) ==> has_prefix(code) && code_decoded(code) is Ok)
    }

    /// What is asked once the metadata are known.
    pub open spec fn ask_hashes(self, task: Task) -> Seq<RequestView> {
        seq![RequestView::FetchBlockHashes(self.number(task))]
    }

    /// What is asked once the header is known.
    pub open spec fn ask_signer(self, task: Task) -> Seq<RequestView> {
        match beneficiary_of(self.home(task).header, task.request_miner_from_clique) {
            Beneficiary::Author(_) => self.ask_hashes(task),
            Beneficiary::SignerOf(hash) => seq![RequestView::FetchSigner(hash)] + self.ask_hashes(
                task,
            ),
        }
    }

    /// What is asked once the block before is known.
    pub open spec fn ask_header(self, task: Task) -> Seq<RequestView> {
        seq![RequestView::GetBlock(self.number(task))] + self.ask_signer(task)
    }

    /// What is asked once all changes are in the state tree.
    pub open spec fn ask_parent(self, task: Task) -> Seq<RequestView> {
        seq![RequestView::GetBlock((self.number(task) - 1) as u64)] + self.ask_header(task)
    }

    /// What is asked from the changes of the `i`-th transaction on: each is
    /// traced, and its changes go into the state tree.
    pub open spec fn ask_diffs(self, task: Task, i: nat) -> Seq<RequestView>
        decreases self.hashes(task).len() - i,
    {
        if i < self.hashes(task).len() {
            seq![RequestView::TraceTransaction(self.hashes(task)[i as int], diff_options())]
                + insert_diffs(self.changes(task, i)) + self.ask_diffs(task, i + 1)
        } else {
            self.ask_parent(task)
        }
    }

    /// What is asked from the `i`-th account of the state on: each goes into the
    /// state tree.
    pub open spec fn ask_accounts(self, task: Task, i: nat) -> Seq<RequestView> {
        insert_pre_states(self.entries(task).skip(i as int)) + self.ask_diffs(task, 0)
    }

    /// What is asked from the `i`-th transaction on: each is fetched and traced.
    pub open spec fn ask_transactions(self, task: Task, i: nat) -> Seq<RequestView>
        decreases self.hashes(task).len() - i,
    {
        if i < self.hashes(task).len() {
            let hash = self.hashes(task)[i as int];
            seq![
                RequestView::GetTransaction(hash),
                RequestView::TraceTransaction(hash, pre_state_options()),
            ] + self.ask_transactions(task, i + 1)
        } else {
            self.ask_accounts(task, 0)
        }
    }

    /// Everything that is asked, in order.
    pub open spec fn script(self, task: Task) -> Seq<RequestView> {
        seq![
            RequestView::GetTransaction(task.tx),
            RequestView::GetBlock(self.number(task)),
            RequestView::FetchChainId,
        ] + self.ask_transactions(task, 0)
    }

    /// The progress after `n` requests were answered.
    pub open spec fn run(self, p: Progress, n: nat) -> Result<Progress, GatherError>
        decreases n,
    {
        if n == 0 {
            Ok(p)
        } else {
            match p.next(self.answer(p.request())) {
                Ok(q) => self.run(q, (n - 1) as nat),
                Err(error) => Err(error),
            }
        }
    }

    /// The first `n` requests.
    pub open spec fn asked(self, p: Progress, n: nat) -> Seq<RequestView>
        decreases n,
    {
        if n == 0 {
            Seq::empty()
        } else {
            match p.next(self.answer(p.request())) {
                Ok(q) => seq![p.request()] + self.asked(q, (n - 1) as nat),
                Err(_) => seq![p.request()],
            }
        }
    }

    /// The first `n` requests can be made, and their answers taken up.
    pub open spec fn smooth(self, p: Progress, n: nat) -> bool
        decreases n,
    {
        n > 0 ==> {
            &&& p.wf()
            &&& p.askable()
            &&& p.accepts(self.answer(p.request()))
            &&& p.next(self.answer(p.request())) matches Ok(q) && self.smooth(q, (n - 1) as nat)
        }
    }
}

/// The error is what the reply calls for: the node does not know a transaction;
/// or it does not know the block that it was just asked for; or the code of the
/// account that was just put into the tree is malformed.
pub open spec fn calls_for(p: Progress, reply: Reply, error: GatherError) -> bool {
    match error {
        GatherError::NotFound(NotFound::Transaction) => reply == Reply::Transaction(None),
        GatherError::NotFound(NotFound::Block(number)) => {
            &&& reply == Reply::Block(None)
            &&& p.request() == RequestView::GetBlock(number)
        },
        GatherError::Code(cause) => p.request() matches RequestView::InsertPreState(_, account)
            && account.code matches Some(code) && code_decoded(code) == Err::<Seq<u8>, HexError>(
            cause,
        ),
    }
}

/// Gathering fails with an error exactly where the reply calls for it.
pub proof fn law_errors_explained(p: Progress, reply: Reply, error: GatherError)
    requires
        p.wf(),
        p.accepts(reply),
    ensures
        p.next(reply) == Err::<Progress, GatherError>(error) <==> calls_for(p, reply, error),
{
}

/// The requests that put accounts of the state into the tree.
pub open spec fn insert_pre_states(entries: Seq<(Address, AccountStateView)>) -> Seq<RequestView> {
    entries.map_values(
        |entry: (Address, AccountStateView)| RequestView::InsertPreState(entry.0, entry.1),
    )
}

/// The requests that put changes into the tree.
pub open spec fn insert_diffs(entries: Seq<(Address, AccountStateView)>) -> Seq<RequestView> {
    entries.map_values(
        |entry: (Address, AccountStateView)| RequestView::InsertDiff(entry.0, entry.1),
    )
}

/// What is gathered when all is gathered.
pub open spec fn gathered(chain: Chain, task: Task, p: Progress) -> bool {
    &&& p.phase is Done
    &&& p.wf()
    &&& p.block_number == chain.number(task)
    &&& p.chain_id == chain.chain_id
    &&& p.traces == chain.traces(task)
    &&& p.state == state_after(chain.traces(task))
    &&& p.addresses == addresses_in(chain.traces(task))
    &&& p.transactions == chain.transactions(task)
    &&& p.rlps == chain.rlps(task)
    &&& p.codes == chain.codes(task)
    &&& p.parent == (chain.block)((chain.number(task) - 1) as u64)
    &&& p.metadata == Some(chain.metadata(task))
    &&& p.block_hashes == Some((chain.block_hashes)(chain.number(task)))
}

/// How many transactions have been traced.
spec fn traced_count(chain: Chain, task: Task, p: Progress) -> nat {
    match p.phase {
        Phase::Target | Phase::Block | Phase::ChainId => 0,
        Phase::Transaction(i) => i,
        Phase::PreTrace(i) => i,
        _ => chain.hashes(task).len(),
    }
}

/// How many accounts of the state have been put into the tree.
spec fn inserted_count(chain: Chain, task: Task, p: Progress) -> nat {
    match p.phase {
        Phase::Target | Phase::Block | Phase::ChainId => 0,
        Phase::Transaction(_) | Phase::PreTrace(_) => 0,
        Phase::PreInsert(i) => i,
        _ => chain.entries(task).len(),
    }
}

/// The progress is that of a run of the task on the chain.
spec fn on_track(chain: Chain, task: Task, p: Progress) -> bool {
    let traced = traced_count(chain, task, p) as int;
    let inserted = inserted_count(chain, task, p) as int;
    &&& p.wf()
    &&& p.tx == task.tx
    &&& p.request_miner_from_clique == task.request_miner_from_clique
    &&& p.traces == chain.traces(task).take(traced)
    &&& p.state == state_after(p.traces)
    &&& p.addresses == addresses_in(p.traces)
    &&& p.transactions == chain.transactions(task).take(traced)
    &&& p.rlps == chain.rlps(task).take(traced)
    &&& p.codes == codes_after(
        map![task.empty_code_hash => Seq::<u8>::empty()],
        chain.entries(task).take(inserted),
    )
    &&& !(p.phase is Target) ==> {
        &&& p.block_number == chain.number(task)
        &&& p.tx_index == (chain.transaction)(task.tx)->0.transaction_index->0
    }
    &&& match p.phase {
        Phase::Target | Phase::Block => true,
        Phase::ChainId => p.hashes == chain.home(task).transactions@,
        _ => p.hashes == chain.hashes(task) && p.chain_id == chain.chain_id,
    }
    &&& match p.phase {
        Phase::PreTrace(i) => p.current == (chain.transaction)(p.hashes[i as int]),
        Phase::DiffInsert(i, _) => p.pending == chain.changes(task, i),
        Phase::Header => p.parent == (chain.block)((chain.number(task) - 1) as u64),
        Phase::Signer => {
            &&& p.parent == (chain.block)((chain.number(task) - 1) as u64)
            &&& p.header == Some(chain.home(task).header)
            &&& p.request_miner_from_clique
        },
        Phase::Hashes => {
            &&& p.parent == (chain.block)((chain.number(task) - 1) as u64)
            &&& p.metadata == Some(chain.metadata(task))
        },
        Phase::Done => gathered(chain, task, p),
        _ => true,
    }
}

/// What is still to be asked.
spec fn remaining(chain: Chain, task: Task, p: Progress) -> Seq<RequestView> {
    match p.phase {
        Phase::Target => chain.script(task),
        Phase::Block => chain.script(task).skip(1),
        Phase::ChainId => chain.script(task).skip(2),
        Phase::Transaction(i) => chain.ask_transactions(task, i),
        Phase::PreTrace(i) => chain.ask_transactions(task, i).skip(1),
        Phase::PreInsert(i) => chain.ask_accounts(task, i),
        Phase::DiffTrace(i) => chain.ask_diffs(task, i),
        Phase::DiffInsert(i, j) => insert_diffs(chain.changes(task, i).skip(j as int))
            + chain.ask_diffs(task, i + 1),
        Phase::Parent => chain.ask_parent(task),
        Phase::Header => chain.ask_header(task),
        Phase::Signer => chain.ask_signer(task),
        Phase::Hashes => chain.ask_hashes(task),
        Phase::Done => Seq::empty(),
    }
}

/// A step of a run stays on track, and asks what is first among what remains.
spec fn advances(chain: Chain, task: Task, p: Progress) -> bool {
    &&& p.askable()
    &&& p.accepts(chain.answer(p.request()))
    &&& p.next(chain.answer(p.request())) matches Ok(q) && on_track(chain, task, q) && remaining(
        chain,
        task,
        p,
    ) == seq![p.request()] + remaining(chain, task, q)
}

/// The last trace of a prefix.
proof fn lemma_take_next<A>(s: Seq<A>, i: int)
    requires
        0 <= i < s.len(),
    ensures
        s.take(i + 1) == s.take(i).push(s[i]),
        s.take(i + 1).drop_last() == s.take(i),
        s.take(i + 1).last() == s[i],
{
    assert(s.take(i + 1) =~= s.take(i).push(s[i]));
    assert(s.take(i + 1).drop_last() =~= s.take(i));
}

/// The changes of the transactions come next, or what follows them.
proof fn lemma_at_diff(chain: Chain, task: Task, p: Progress, i: nat)
    requires
        p.hashes == chain.hashes(task),
        i <= p.hashes.len(),
    ensures
        remaining(chain, task, Progress { phase: p.at_diff(i), ..p }) == chain.ask_diffs(task, i),
{
}

/// The accounts of the state come next, or what follows them.
proof fn lemma_at_account(chain: Chain, task: Task, p: Progress, i: nat)
    requires
        p.hashes == chain.hashes(task),
        p.entries() == chain.entries(task),
        i <= p.entries().len(),
    ensures
        remaining(chain, task, Progress { phase: p.at_account(i), ..p }) == chain.ask_accounts(
            task,
            i,
        ),
{
    if i == p.entries().len() {
        lemma_at_diff(chain, task, p, 0);
        assert(chain.ask_accounts(task, i) =~= chain.ask_diffs(task, 0));
    }
}

/// The steps before the first trace.
proof fn lemma_opening(chain: Chain, task: Task, p: Progress)
    requires
        chain.serves(task),
        on_track(chain, task, p),
        p.phase is Target || p.phase is Block || p.phase is ChainId,
    ensures
        advances(chain, task, p),
{
    let q = p.next(chain.answer(p.request()))->Ok_0;
    let script = chain.script(task);
    assert(script.skip(0) =~= script);
    if p.phase is Target {
        assert(script =~= seq![p.request()] + script.skip(1));
    } else if p.phase is Block {
        assert(script.skip(1) =~= seq![p.request()] + script.skip(2));
    } else {
        assert(script.skip(2) =~= seq![p.request()] + chain.ask_transactions(task, 0));
        assert(q.traces =~= chain.traces(task).take(0));
        if q.hashes.len() == 0 {
            assert(chain.traces(task) =~= chain.traces(task).take(0));
            assert(chain.transactions(task) =~= chain.transactions(task).take(0));
            assert(chain.rlps(task) =~= chain.rlps(task).take(0));
            assert(chain.entries(task) == q.entries());
            lemma_at_account(chain, task, q, 0);
        }
    }
}

/// The steps of fetching and tracing.
proof fn lemma_transactions(chain: Chain, task: Task, p: Progress)
    requires
        chain.serves(task),
        on_track(chain, task, p),
        p.phase is Transaction || p.phase is PreTrace,
    ensures
        advances(chain, task, p),
{
    let q = p.next(chain.answer(p.request()))->Ok_0;
    if p.phase is Transaction {
        let i = p.phase->Transaction_0;
        assert((chain.transaction)(chain.hashes(task)[i as int]) is Some);
        let ask = chain.ask_transactions(task, i);
        assert(ask =~= seq![p.request()] + ask.skip(1));
    } else {
        let i = p.phase->PreTrace_0;
        let n = chain.hashes(task).len();
        assert(encodable((chain.transaction)(chain.hashes(task)[i as int])->0.signed@));
        assert(chain.ask_transactions(task, i).skip(1) =~= seq![p.request()]
            + chain.ask_transactions(task, i + 1));
        lemma_take_next(chain.traces(task), i as int);
        lemma_take_next(chain.transactions(task), i as int);
        lemma_take_next(chain.rlps(task), i as int);
        assert(pre_state_options() != diff_options());
        assert(q.traces == chain.traces(task).take((i + 1) as int));
        assert(q.state == state_after(q.traces));
        assert(q.addresses == addresses_in(q.traces));
        if i + 1 == n {
            assert(chain.traces(task).take(n as int) =~= chain.traces(task));
            lemma_at_account(chain, task, q, 0);
        }
    }
}

/// The steps of putting the state into the tree.
proof fn lemma_accounts(chain: Chain, task: Task, p: Progress)
    requires
        chain.serves(task),
        on_track(chain, task, p),
        p.phase is PreInsert,
    ensures
        advances(chain, task, p),
{
    let i = p.phase->PreInsert_0;
    let entries = chain.entries(task);
    assert(chain.traces(task).take(chain.hashes(task).len() as int) =~= chain.traces(task));
    assert(p.entries() == entries);
    assert(entries[i as int].1.code matches Some(code) ==> has_prefix(code) && code_decoded(
        code,
    ) is Ok);
    let q = p.next(chain.answer(p.request()))->Ok_0;
    lemma_take_next(entries, i as int);
    assert(chain.ask_accounts(task, i) =~= seq![p.request()] + chain.ask_accounts(task, i + 1));
    lemma_at_account(chain, task, q, i + 1);
}

/// The steps of putting the changes into the tree.
proof fn lemma_diffs(chain: Chain, task: Task, p: Progress)
    requires
        chain.serves(task),
        on_track(chain, task, p),
        p.phase is DiffTrace || p.phase is DiffInsert,
    ensures
        advances(chain, task, p),
{
    let q = p.next(chain.answer(p.request()))->Ok_0;
    if p.phase is DiffTrace {
        let i = p.phase->DiffTrace_0;
        let changes = chain.changes(task, i);
        assert(q.pending == changes);
        if changes.len() > 0 {
            assert(changes.skip(0) =~= changes);
            assert(chain.ask_diffs(task, i) =~= seq![p.request()] + (insert_diffs(changes)
                + chain.ask_diffs(task, i + 1)));
        } else {
            assert(chain.ask_diffs(task, i) =~= seq![p.request()] + chain.ask_diffs(task, i + 1));
            lemma_at_diff(chain, task, q, i + 1);
        }
    } else {
        let i = p.phase->DiffInsert_0;
        let j = p.phase->DiffInsert_1;
        let changes = chain.changes(task, i);
        let rest = chain.ask_diffs(task, i + 1);
        assert(insert_diffs(changes.skip(j as int)) + rest =~= seq![p.request()] + (insert_diffs(
            changes.skip((j + 1) as int),
        ) + rest));
        if j + 1 == changes.len() {
            assert(insert_diffs(changes.skip((j + 1) as int)) + rest =~= rest);
            lemma_at_diff(chain, task, q, i + 1);
        }
    }
}

/// The steps after the last change.
proof fn lemma_closing(chain: Chain, task: Task, p: Progress)
    requires
        chain.serves(task),
        on_track(chain, task, p),
        p.phase is Parent || p.phase is Header || p.phase is Signer || p.phase is Hashes,
    ensures
        advances(chain, task, p),
{
    let n = chain.hashes(task).len() as int;
    let q = p.next(chain.answer(p.request()))->Ok_0;
    if p.phase is Hashes {
        assert(chain.traces(task).take(n) =~= chain.traces(task));
        assert(chain.transactions(task).take(n) =~= chain.transactions(task));
        assert(chain.rlps(task).take(n) =~= chain.rlps(task));
        assert(chain.entries(task).take(chain.entries(task).len() as int) =~= chain.entries(task));
        assert(chain.ask_hashes(task) =~= seq![p.request()] + Seq::<RequestView>::empty());
    }
}

/// Every step of a run advances it.
proof fn lemma_step(chain: Chain, task: Task, p: Progress)
    requires
        chain.serves(task),
        on_track(chain, task, p),
        !(p.phase is Done),
    ensures
        advances(chain, task, p),
{
    match p.phase {
        Phase::Target | Phase::Block | Phase::ChainId => lemma_opening(chain, task, p),
        Phase::Transaction(_) | Phase::PreTrace(_) => lemma_transactions(chain, task, p),
        Phase::PreInsert(_) => lemma_accounts(chain, task, p),
        Phase::DiffTrace(_) | Phase::DiffInsert(_, _) => lemma_diffs(chain, task, p),
        _ => lemma_closing(chain, task, p),
    }
}

/// A run that is on track comes to its end, and asks what remains.
proof fn lemma_run(chain: Chain, task: Task, p: Progress)
    requires
        chain.serves(task),
        on_track(chain, task, p),
    ensures
        ({
            let rest = remaining(chain, task, p);
            &&& chain.smooth(p, rest.len())
            &&& chain.asked(p, rest.len()) == rest
            &&& chain.run(p, rest.len()) matches Ok(q) && gathered(chain, task, q)
        }),
    decreases remaining(chain, task, p).len(),
{
    let rest = remaining(chain, task, p);
    if p.phase is Done {
        assert(chain.asked(p, 0) =~= rest);
    } else {
        lemma_step(chain, task, p);
        let q = p.next(chain.answer(p.request()))->Ok_0;
        let rest_of_q = remaining(chain, task, q);
        assert(rest == seq![p.request()] + rest_of_q);
        assert(rest.len() == rest_of_q.len() + 1);
        lemma_run(chain, task, q);
    }
}

/// A run on a node that has all that is asked for comes to its end without an
/// error: it puts the requests of the script, in that order and no others, and
/// gathers what the chain holds.
pub proof fn law_run_follows_script(chain: Chain, task: Task)
    requires
        chain.serves(task),
    ensures
        ({
            let p = start(task.tx, task.request_miner_from_clique, task.empty_code_hash);
            let n = chain.script(task).len();
            &&& chain.smooth(p, n)
            &&& chain.asked(p, n) == chain.script(task)
            &&& chain.run(p, n) matches Ok(q) && gathered(chain, task, q)
        }),
{
    let p = start(task.tx, task.request_miner_from_clique, task.empty_code_hash);
    assert(p.traces =~= chain.traces(task).take(0));
    assert(p.transactions =~= chain.transactions(task).take(0));
    assert(p.rlps =~= chain.rlps(task).take(0));
    lemma_run(chain, task, p);
}

/// How many transactions of a block are gathered for the one at `tx_index`: those up
/// to it and itself, or all where the block ends before it.
pub open spec fn count_up_to(block: Block, tx_index: u64) -> nat {
    if (tx_index as usize) < block.transactions@.len() {
        ((tx_index as usize) + 1) as nat
    } else {
        block.transactions@.len()
    }
}

/// Code that was recorded stays on file under its hash.
proof fn lemma_codes_on_file(
    codes: Map<U256, Seq<u8>>,
    entries: Seq<(Address, AccountStateView)>,
    j: int,
)
    requires
        0 <= j < entries.len(),
        forall|k: int|
            0 <= k < entries.len() ==> ((#[trigger] entries[k]).1.code matches Some(code)
                ==> code_decoded(code) is Ok),
    ensures
        code_on_file(codes_after(codes, entries), entries[j].1),
    decreases entries.len(),
{
    let shorter = entries.drop_last();
    let last = entries.len() - 1;
    assert(entries[j].1.code matches Some(code) ==> code_decoded(code) is Ok);
    assert(entries[last].1.code matches Some(code) ==> code_decoded(code) is Ok);
    if j < last {
        assert forall|k: int| 0 <= k < shorter.len() implies ((
        #[trigger] shorter[k]).1.code matches Some(code) ==> code_decoded(code) is Ok) by {
            assert(shorter[k] == entries[k]);
        }
        lemma_codes_on_file(codes, shorter, j);
        assert(shorter[j] == entries[j]);
    }
}

/// A run on a node that has all that is asked for gathers, of the block that holds the
/// transaction, the transactions up to it and itself, each with its encoding and its
/// trace; the block before; the metadata of the header, with the author or the signer
/// as beneficiary; and the code of every account under its Keccak hash.
pub proof fn law_run_gathers_the_block_up_to_the_target(chain: Chain, task: Task)
    requires
        chain.serves(task),
    ensures
        ({
            let p = start(task.tx, task.request_miner_from_clique, task.empty_code_hash);
            let target = (chain.transaction)(task.tx)->0;
            let number = target.block_number->0;
            let block = (chain.block)(number)->0;
            let count = count_up_to(block, target.transaction_index->0);
            let beneficiary = if task.request_miner_from_clique {
                (chain.signer)(block.header.hash->0)
            } else {
                block.header.author->0
            };
            &&& chain.run(p, chain.script(task).len()) matches Ok(q)
            &&& q.phase is Done
            &&& q.block_number == number
            &&& q.chain_id == chain.chain_id
            &&& q.transactions.len() == count
            &&& q.rlps.len() == count
            &&& q.traces.len() == count
            &&& forall|i: int|
                0 <= i < count ==> Some(#[trigger] q.transactions[i]) == (chain.transaction)(
                    block.transactions@[i],
                )
            &&& forall|i: int|
                0 <= i < count ==> (#[trigger] q.rlps[i]) == transaction_rlp(
                    q.transactions[i].signed@,
                )
            &&& forall|i: int|
                0 <= i < count ==> (#[trigger] q.traces[i]) == (chain.pre_state)(
                    block.transactions@[i],
                )@
            &&& q.state == state_after(q.traces)
            &&& q.addresses == addresses_in(q.traces)
            &&& q.parent matches Some(parent) && (chain.block)((number - 1) as u64) == Some(parent)
            &&& q.metadata matches Some(metadata) && describes(
                metadata,
                q,
                block.header,
                beneficiary,
            )
            &&& q.block_hashes == Some((chain.block_hashes)(number))
            &&& forall|address: Address| #[trigger]
                q.state.contains_key(address) ==> code_on_file(q.codes, q.state[address])
        }),
{
    let p = start(task.tx, task.request_miner_from_clique, task.empty_code_hash);
    law_run_follows_script(chain, task);
    let q = chain.run(p, chain.script(task).len())->Ok_0;
    let target = (chain.transaction)(task.tx)->0;
    let block = chain.home(task);
    let count = count_up_to(block, target.transaction_index->0);
    assert(chain.hashes(task) =~= block.transactions@.take(count as int));
    assert forall|i: int| 0 <= i < count implies Some(#[trigger] q.transactions[i]) == (
    chain.transaction)(block.transactions@[i]) by {
        assert(chain.hashes(task)[i] == block.transactions@[i]);
    }
    law_metadata_are_those_of_the_header(
        chain.number(task),
        chain.chain_id,
        block.header,
        chain.beneficiary(task),
    );
    assert forall|i: int| 0 <= i < q.traces.len() implies (
    #[trigger] q.traces[i]).dom().finite() by {
        (chain.pre_state)(block.transactions@[i]).lemma_finite();
    }
    lemma_state_finite(q.traces);
    law_listing_in_order(q.state);
    let entries = chain.entries(task);
    assert forall|address: Address| #[trigger] q.state.contains_key(address) implies code_on_file(
        q.codes,
        q.state[address],
    ) by {
        let j = choose|j: int| 0 <= j < entries.len() && (#[trigger] entries[j]).0 == address;
        lemma_codes_on_file(map![task.empty_code_hash => Seq::<u8>::empty()], entries, j);
    }
}

/// Finite traces add up to a finite state.
proof fn lemma_state_finite(traces: Seq<AccountsView>)
    requires
        forall|i: int| 0 <= i < traces.len() ==> (#[trigger] traces[i]).dom().finite(),
    ensures
        state_after(traces).dom().finite(),
    decreases traces.len(),
{
    if traces.len() > 0 {
        let shorter = traces.drop_last();
        assert forall|i: int| 0 <= i < shorter.len() implies (
        #[trigger] shorter[i]).dom().finite() by {
            assert(shorter[i] == traces[i]);
        }
        lemma_state_finite(shorter);
        assert(traces[traces.len() - 1].dom().finite());
        assert(state_after(traces).dom() =~= state_after(shorter).dom().union(
            traces.last().dom(),
        ));
    }
}

/// From position `k` on the requests put what a transaction changed into the tree: the
/// request for the changes, then the accounts before it, then those after it.
pub open spec fn changes_stand_at(
    requests: Seq<RequestView>,
    k: int,
    hash: H256,
    before: AccountsView,
    after: AccountsView,
) -> bool {
    let first = listing(before);
    let second = listing(after);
    &&& 0 <= k
    &&& k + first.len() + second.len() < requests.len()
    &&& requests[k] matches RequestView::TraceTransaction(traced, options) && traced == hash
        && options.tracer == Some(BuiltInTracer::PreState) && options.tracer_config == Some(
        PreStateConfig { diff_mode: Some(true) },
    )
    &&& forall|j: int|
        0 <= j < first.len() ==> requests[k + 1 + j] == RequestView::InsertDiff(
            (#[trigger] first[j]).0,
            first[j].1,
        )
    &&& forall|j: int|
        0 <= j < second.len() ==> requests[k + 1 + first.len() + j] == RequestView::InsertDiff(
            (#[trigger] second[j]).0,
            second[j].1,
        )
}

/// Among what is asked from the `m`-th transaction's changes on, those of the `i`-th
/// stand somewhere.
proof fn lemma_changes_stand(chain: Chain, task: Task, m: nat, i: nat) -> (k: int)
    requires
        m <= i < chain.hashes(task).len(),
    ensures
        ({
            let hash = chain.hashes(task)[i as int];
            changes_stand_at(
                chain.ask_diffs(task, m),
                k,
                hash,
                (chain.diff)(hash).0@,
                (chain.diff)(hash).1@,
            )
        }),
    decreases i - m,
{
    let hash = chain.hashes(task)[i as int];
    let before = (chain.diff)(hash).0@;
    let after = (chain.diff)(hash).1@;
    let asked = chain.ask_diffs(task, m);
    let rest = chain.ask_diffs(task, m + 1);
    let changes = insert_diffs(chain.changes(task, m));
    assert(chain.ask_diffs(task, m).len() == 1 + changes.len() + rest.len());
    if m == i {
        lemma_diffs_long(chain, task, m + 1);
        let first = listing(before);
        let second = listing(after);
        assert forall|j: int| 0 <= j < first.len() implies asked[1 + j] == RequestView::InsertDiff(
            (#[trigger] first[j]).0,
            first[j].1,
        ) by {
            assert(chain.changes(task, m)[j] == first[j]);
            assert(asked[1 + j] == changes[j]);
        }
        assert forall|j: int| 0 <= j < second.len() implies asked[1 + first.len() + j]
            == RequestView::InsertDiff((#[trigger] second[j]).0, second[j].1) by {
            assert(chain.changes(task, m)[first.len() + j] == second[j]);
            assert(asked[1 + first.len() + j] == changes[first.len() + j]);
        }
        0
    } else {
        let k = lemma_changes_stand(chain, task, m + 1, i);
        let shift = 1 + changes.len() as int;
        assert(forall|j: int| 0 <= j < rest.len() ==> asked[shift + j] == #[trigger] rest[j]);
        let first = listing(before);
        let second = listing(after);
        assert(asked[shift + k] == rest[k]);
        assert forall|j: int| 0 <= j < first.len() implies asked[shift + k + 1 + j]
            == RequestView::InsertDiff((#[trigger] first[j]).0, first[j].1) by {
            assert(asked[shift + (k + 1 + j)] == rest[k + 1 + j]);
        }
        assert forall|j: int| 0 <= j < second.len() implies asked[shift + k + 1 + first.len() + j]
            == RequestView::InsertDiff((#[trigger] second[j]).0, second[j].1) by {
            assert(asked[shift + (k + 1 + first.len() + j)] == rest[k + 1 + first.len() + j]);
        }
        shift + k
    }
}

/// After the changes something is still asked, and it ends with what closes a run.
proof fn lemma_diffs_long(chain: Chain, task: Task, m: nat)
    ensures
        ({
            let asked = chain.ask_diffs(task, m);
            let closing = chain.ask_parent(task);
            &&& asked.len() >= closing.len()
            &&& asked.skip(asked.len() - closing.len()) == closing
        }),
    decreases chain.hashes(task).len() - m,
{
    let asked = chain.ask_diffs(task, m);
    let closing = chain.ask_parent(task);
    if m < chain.hashes(task).len() {
        lemma_diffs_long(chain, task, m + 1);
        let rest = chain.ask_diffs(task, m + 1);
        let changes = insert_diffs(chain.changes(task, m));
        assert(asked.len() == 1 + changes.len() + rest.len());
        assert(asked.skip(asked.len() - closing.len()) =~= rest.skip(rest.len() - closing.len()));
    } else {
        assert(asked.skip(0) =~= closing);
    }
}

/// What is asked from the `m`-th transaction on: two requests for each, then the rest.
proof fn lemma_transactions_stand(chain: Chain, task: Task, m: nat)
    requires
        m <= chain.hashes(task).len(),
    ensures
        ({
            let asked = chain.ask_transactions(task, m);
            let left = chain.hashes(task).len() - m;
            &&& asked.len() == 2 * left + chain.ask_accounts(task, 0).len()
            &&& asked.skip(2 * left) == chain.ask_accounts(task, 0)
            &&& forall|i: int|
                #![trigger chain.hashes(task)[i]]
                m <= i < chain.hashes(task).len() ==> {
                    &&& asked[2 * (i - m)] == RequestView::GetTransaction(chain.hashes(task)[i])
                    &&& asked[2 * (i - m) + 1] == RequestView::TraceTransaction(
                        chain.hashes(task)[i],
                        pre_state_options(),
                    )
                }
        }),
    decreases chain.hashes(task).len() - m,
{
    let asked = chain.ask_transactions(task, m);
    let left = chain.hashes(task).len() - m;
    if left > 0 {
        lemma_transactions_stand(chain, task, m + 1);
        let rest = chain.ask_transactions(task, m + 1);
        assert(asked.len() == 2 + rest.len());
        assert(forall|j: int| 0 <= j < rest.len() ==> asked[2 + j] == #[trigger] rest[j]);
        assert(asked.skip(2 * left) =~= rest.skip(2 * (left - 1)));
        assert forall|i: int|
            #![trigger chain.hashes(task)[i]]
            m <= i < chain.hashes(task).len() implies {
            &&& asked[2 * (i - m)] == RequestView::GetTransaction(chain.hashes(task)[i])
            &&& asked[2 * (i - m) + 1] == RequestView::TraceTransaction(
                chain.hashes(task)[i],
                pre_state_options(),
            )
        } by {
            if i > m {
                assert(asked[2 + 2 * (i - m - 1)] == rest[2 * (i - m - 1)]);
                assert(asked[2 + (2 * (i - m - 1) + 1)] == rest[2 * (i - m - 1) + 1]);
            }
        }
    } else {
        assert(asked.skip(0) =~= asked);
    }
}

/// Where the parts of the script stand.
proof fn lemma_script_layout(chain: Chain, task: Task)
    ensures
        ({
            let script = chain.script(task);
            let count = chain.hashes(task).len() as int;
            let entries = chain.entries(task);
            let diffs = chain.ask_diffs(task, 0);
            &&& script.len() == 3 + 2 * count + entries.len() + diffs.len()
            &&& script.skip(3) == chain.ask_transactions(task, 0)
            &&& script.skip(3 + 2 * count) == insert_pre_states(entries) + diffs
            &&& script.skip(3 + 2 * count + entries.len()) == diffs
        }),
{
    let script = chain.script(task);
    let count = chain.hashes(task).len() as int;
    let entries = chain.entries(task);
    let diffs = chain.ask_diffs(task, 0);
    lemma_transactions_stand(chain, task, 0);
    let transactions = chain.ask_transactions(task, 0);
    assert(script.skip(3) =~= transactions);
    assert(entries.skip(0) =~= entries);
    assert(script.skip(3 + 2 * count) =~= transactions.skip(2 * count));
    let accounts = insert_pre_states(entries) + diffs;
    assert(script.skip(3 + 2 * count + entries.len()) =~= accounts.skip(entries.len() as int));
    assert(accounts.skip(entries.len() as int) =~= diffs);
}

/// The hashes that are gathered are the first of the block.
proof fn lemma_hashes_are_first(chain: Chain, task: Task)
    requires
        chain.serves(task),
    ensures
        chain.hashes(task) == chain.home(task).transactions@.take(
            count_up_to(
                chain.home(task),
                (chain.transaction)(task.tx)->0.transaction_index->0,
            ) as int,
        ),
{
    assert(chain.hashes(task) =~= chain.home(task).transactions@.take(
        count_up_to(
            chain.home(task),
            (chain.transaction)(task.tx)->0.transaction_index->0,
        ) as int,
    ));
}

/// The requests start with the transaction to prove, its block and the chain; then come
/// the first `count` transactions of the block, each with its trace; and then the
/// accounts, one after the other, go into the tree.
pub open spec fn opening_stands(
    requests: Seq<RequestView>,
    tx: H256,
    number: u64,
    block: Block,
    count: int,
    accounts: Seq<(Address, AccountStateView)>,
) -> bool {
    &&& requests.len() > 3 + 2 * count + accounts.len()
    &&& requests[0] == RequestView::GetTransaction(tx)
    &&& requests[1] == RequestView::GetBlock(number)
    &&& requests[2] == RequestView::FetchChainId
    &&& forall|i: int|
        0 <= i < count ==> requests[3 + 2 * i] == RequestView::GetTransaction(
            #[trigger] block.transactions@[i],
        )
    &&& forall|i: int|
        0 <= i < count ==> {
            &&& requests[4 + 2 * i] == RequestView::TraceTransaction(
                #[trigger] block.transactions@[i],
                requests[4 + 2 * i]->TraceTransaction_1,
            )
            &&& requests[4 + 2 * i]->TraceTransaction_1.tracer == Some(BuiltInTracer::PreState)
            &&& requests[4 + 2 * i]->TraceTransaction_1.tracer_config is None
        }
    &&& forall|j: int|
        0 <= j < accounts.len() ==> requests[3 + 2 * count + j] == RequestView::InsertPreState(
            (#[trigger] accounts[j]).0,
            accounts[j].1,
        )
}

/// The script starts as it should.
proof fn lemma_opening_stands(chain: Chain, task: Task)
    requires
        chain.serves(task),
    ensures
        opening_stands(
            chain.script(task),
            task.tx,
            chain.number(task),
            chain.home(task),
            chain.hashes(task).len() as int,
            chain.entries(task),
        ),
{
    lemma_script_layout(chain, task);
    lemma_hashes_are_first(chain, task);
    lemma_transactions_stand(chain, task, 0);
    lemma_diffs_long(chain, task, 0);
    let asked = chain.script(task);
    let block = chain.home(task);
    let count = chain.hashes(task).len() as int;
    let entries = chain.entries(task);
    assert(chain.ask_parent(task).len() > 0);
    assert forall|i: int| 0 <= i < count implies asked[3 + 2 * i] == RequestView::GetTransaction(
        #[trigger] block.transactions@[i],
    ) by {
        assert(chain.hashes(task)[i] == block.transactions@[i]);
        assert(asked.skip(3)[2 * i] == asked[3 + 2 * i]);
    }
    assert forall|i: int| 0 <= i < count implies {
        &&& asked[4 + 2 * i] == RequestView::TraceTransaction(
            #[trigger] block.transactions@[i],
            asked[4 + 2 * i]->TraceTransaction_1,
        )
        &&& asked[4 + 2 * i]->TraceTransaction_1.tracer == Some(BuiltInTracer::PreState)
        &&& asked[4 + 2 * i]->TraceTransaction_1.tracer_config is None
    } by {
        assert(chain.hashes(task)[i] == block.transactions@[i]);
        assert(asked.skip(3)[2 * i + 1] == asked[4 + 2 * i]);
    }
    assert forall|j: int| 0 <= j < entries.len() implies asked[3 + 2 * count + j]
        == RequestView::InsertPreState((#[trigger] entries[j]).0, entries[j].1) by {
        assert(asked.skip(3 + 2 * count)[j] == asked[3 + 2 * count + j]);
        assert(asked.skip(3 + 2 * count)[j] == insert_pre_states(entries)[j]);
    }
}

/// A run asks first for the transaction to prove, its block and the chain; then for
/// each transaction of the block up to it and its trace; and then every account of the
/// state, in ascending order, goes into the tree.
pub proof fn law_requests_of_the_opening(chain: Chain, task: Task)
    requires
        chain.serves(task),
    ensures
        ({
            let p = start(task.tx, task.request_miner_from_clique, task.empty_code_hash);
            let n = chain.script(task).len();
            let target = (chain.transaction)(task.tx)->0;
            let block = (chain.block)(target.block_number->0)->0;
            &&& chain.run(p, n) matches Ok(q)
            &&& opening_stands(
                chain.asked(p, n),
                task.tx,
                target.block_number->0,
                block,
                count_up_to(block, target.transaction_index->0) as int,
                listing(q.state),
            )
        }),
{
    law_run_follows_script(chain, task);
    lemma_opening_stands(chain, task);
    lemma_hashes_are_first(chain, task);
}

/// What stands at a place behind the first `n` requests stands `n` places further
/// among all.
proof fn lemma_changes_shift(
    requests: Seq<RequestView>,
    n: int,
    k: int,
    hash: H256,
    before: AccountsView,
    after: AccountsView,
)
    requires
        0 <= n <= requests.len(),
        changes_stand_at(requests.skip(n), k, hash, before, after),
    ensures
        changes_stand_at(requests, n + k, hash, before, after),
{
    let rest = requests.skip(n);
    let first = listing(before);
    let second = listing(after);
    assert(rest[k] == requests[n + k]);
    assert forall|j: int| 0 <= j < first.len() implies requests[n + k + 1 + j]
        == RequestView::InsertDiff((#[trigger] first[j]).0, first[j].1) by {
        assert(rest[k + 1 + j] == requests[n + (k + 1 + j)]);
    }
    assert forall|j: int| 0 <= j < second.len() implies requests[n + k + 1 + first.len() + j]
        == RequestView::InsertDiff((#[trigger] second[j]).0, second[j].1) by {
        assert(rest[k + 1 + first.len() + j] == requests[n + (k + 1 + first.len() + j)]);
    }
}

/// Once the state is in the tree, a run asks of each transaction what it changed, and
/// puts the accounts before it into the tree, and then those after it.
pub proof fn law_requests_for_changes(chain: Chain, task: Task, i: int)
    requires
        chain.serves(task),
        0 <= i < count_up_to(
            chain.home(task),
            (chain.transaction)(task.tx)->0.transaction_index->0,
        ),
    ensures
        ({
            let p = start(task.tx, task.request_miner_from_clique, task.empty_code_hash);
            let asked = chain.asked(p, chain.script(task).len());
            let target = (chain.transaction)(task.tx)->0;
            let block = (chain.block)(target.block_number->0)->0;
            let count = count_up_to(block, target.transaction_index->0) as int;
            let q = chain.run(p, chain.script(task).len())->Ok_0;
            let hash = block.transactions@[i];
            exists|k: int|
                k >= 3 + 2 * count + listing(q.state).len() && #[trigger] changes_stand_at(
                    asked,
                    k,
                    hash,
                    (chain.diff)(hash).0@,
                    (chain.diff)(hash).1@,
                )
        }),
{
    law_run_follows_script(chain, task);
    lemma_script_layout(chain, task);
    lemma_hashes_are_first(chain, task);
    let hash = chain.home(task).transactions@[i];
    assert(chain.hashes(task)[i] == hash);
    let k = lemma_changes_stand(chain, task, 0, i as nat);
    lemma_changes_shift(
        chain.script(task),
        (3 + 2 * chain.hashes(task).len() + chain.entries(task).len()) as int,
        k,
        hash,
        (chain.diff)(hash).0@,
        (chain.diff)(hash).1@,
    );
}

/// In the end a run asks for the block before, for the block again, for its signer
/// where signers take turns, and for the hashes of the blocks.
pub proof fn law_requests_of_the_closing(chain: Chain, task: Task)
    requires
        chain.serves(task),
    ensures
        ({
            let p = start(task.tx, task.request_miner_from_clique, task.empty_code_hash);
            let asked = chain.asked(p, chain.script(task).len());
            let end = asked.len() as int;
            let target = (chain.transaction)(task.tx)->0;
            let number = target.block_number->0;
            let block = (chain.block)(number)->0;
            let count = count_up_to(block, target.transaction_index->0) as int;
            let tail: int = if task.request_miner_from_clique {
                4
            } else {
                3
            };
            &&& end >= 3 + 3 * count + tail
            &&& asked[end - tail] == RequestView::GetBlock((number - 1) as u64)
            &&& asked[end - tail + 1] == RequestView::GetBlock(number)
            &&& task.request_miner_from_clique ==> asked[end - 2] == RequestView::FetchSigner(
                block.header.hash->0,
            )
            &&& asked[end - 1] == RequestView::FetchBlockHashes(number)
        }),
{
    law_run_follows_script(chain, task);
    lemma_script_layout(chain, task);
    lemma_hashes_are_first(chain, task);
    lemma_diffs_long(chain, task, 0);
    lemma_diffs_count(chain, task, 0);
    let asked = chain.script(task);
    let diffs = chain.ask_diffs(task, 0);
    let closing = chain.ask_parent(task);
    let lead = asked.len() - diffs.len();
    assert forall|j: int| 0 <= j < closing.len() implies asked[asked.len() - closing.len() + j]
        == #[trigger] closing[j] by {
        let at = diffs.len() - closing.len() + j;
        assert(diffs.skip(diffs.len() - closing.len())[j] == diffs[at]);
        assert(asked.skip(lead)[at] == asked[lead + at]);
    }
    assert(closing[0] == RequestView::GetBlock((chain.number(task) - 1) as u64));
    assert(closing[1] == RequestView::GetBlock(chain.number(task)));
    assert(closing[closing.len() - 1] == RequestView::FetchBlockHashes(chain.number(task)));
    if task.request_miner_from_clique {
        assert(closing[2] == RequestView::FetchSigner(chain.home(task).header.hash->0));
    }
}

/// Each transaction from the `m`-th on is asked for its changes, and then comes what
/// closes a run.
proof fn lemma_diffs_count(chain: Chain, task: Task, m: nat)
    requires
        m <= chain.hashes(task).len(),
    ensures
        chain.ask_diffs(task, m).len() >= chain.hashes(task).len() - m + chain.ask_parent(
            task,
        ).len(),
    decreases chain.hashes(task).len() - m,
{
    if m < chain.hashes(task).len() {
        lemma_diffs_count(chain, task, m + 1);
    }
}

} // verus!
