//! Gathering what the proof of a transaction needs: which questions are put to
//! the node, in which order, and what becomes of the answers.
use crate::accounts::{
    add_trace, addresses_of, with_trace, AccountState, AccountStateView, Accounts, AccountsView,
};
use crate::block::{
    beneficiary_of, block_beneficiary, complete, header_metadata, is_complete, metadata_of,
    names_beneficiary, tells_beneficiary, Beneficiary, Block, BlockHashes, BlockHeader,
    BlockMetadata, BlockMetadataView,
};
use crate::codec::{code_decoded, has_prefix, is_prefixed};
use crate::codes::{add_code, contract_codes, with_code, ContractCodes};
use crate::errors::{GatherError, NotFound};
use crate::primitives::{lemma_word, word, Address, Bloom, H256, U256};
use crate::sorted_map::{listing, Duplicate, SortedMap};
use crate::tracing::{
    diff_options, pre_state_options, tracing_options, tracing_options_diff, BuiltInTracer,
    PreStateConfig, TracingOptions,
};
use crate::transaction::{can_encode, encodable, encode_transaction, transaction_rlp, Transaction};
use crate::tries::{empty_trie, no_nodes, trie_nodes};
use mpt_trie::partial_trie::HashedPartialTrie;
use vstd::prelude::*;

verus! {

/// What is to be done next.
#[derive(Debug)]
pub enum Request<'a> {
    /// Fetch the transaction with this hash.
    GetTransaction(H256),
    /// Fetch the block with this number.
    GetBlock(u64),
    /// Fetch the id of the chain.
    FetchChainId,
    /// Trace the transaction with this hash.
    TraceTransaction(H256, TracingOptions),
    /// Put an account of the state before the transactions into the state tree.
    InsertPreState(Address, &'a AccountState),
    /// Put an account of what a transaction changed into the state tree.
    InsertDiff(Address, &'a AccountState),
    /// Fetch the signer of the block with this hash.
    FetchSigner(H256),
    /// Fetch the hashes of the block with this number and of those before it.
    FetchBlockHashes(u64),
    /// Nothing: all is gathered.
    Finished,
}

/// What is to be done next, with accounts as mathematical values.
pub enum RequestView {
    GetTransaction(H256),
    GetBlock(u64),
    FetchChainId,
    TraceTransaction(H256, TracingOptions),
    InsertPreState(Address, AccountStateView),
    InsertDiff(Address, AccountStateView),
    FetchSigner(H256),
    FetchBlockHashes(u64),
    Finished,
}

impl<'a> View for Request<'a> {
    type V = RequestView;

    open spec fn view(&self) -> RequestView {
        match *self {
            Request::GetTransaction(hash) => RequestView::GetTransaction(hash),
            Request::GetBlock(number) => RequestView::GetBlock(number),
            Request::FetchChainId => RequestView::FetchChainId,
            Request::TraceTransaction(hash, options) => RequestView::TraceTransaction(hash, options),
            Request::InsertPreState(address, account) => RequestView::InsertPreState(
                address,
                account@,
            ),
            Request::InsertDiff(address, account) => RequestView::InsertDiff(address, account@),
            Request::FetchSigner(hash) => RequestView::FetchSigner(hash),
            Request::FetchBlockHashes(number) => RequestView::FetchBlockHashes(number),
            Request::Finished => RequestView::Finished,
        }
    }
}

/// A trace of a transaction.
#[derive(Debug, PartialEq)]
pub enum Trace {
    /// The accounts that the transaction found.
    PreState(Accounts),
    /// The accounts that it changed, before and after.
    Diff(Accounts, Accounts),
    /// Anything else.
    Other,
}

/// The answer to a request.
#[derive(Debug, PartialEq)]
pub enum Reply {
    Transaction(Option<Transaction>),
    Block(Option<Block>),
    ChainId(U256),
    Trace(Trace),
    Inserted,
    Signer(Address),
    BlockHashes(BlockHashes),
}

/// How far gathering has come.
#[derive(Clone, Copy, Debug, PartialEq, Eq)]
pub enum Stage {
    /// The transaction to prove is asked for.
    Target,
    /// Its block is asked for.
    Block,
    /// The id of the chain is asked for.
    ChainId,
    /// The transaction at this position in the block is asked for.
    Transaction(usize),
    /// The trace of the transaction at this position is asked for.
    PreTrace(usize),
    /// The account at this position in the state is put into the tree.
    PreInsert(usize),
    /// The changes of the transaction at this position are asked for.
    DiffTrace(usize),
    /// Of its changes, the one at the second position is put into the tree.
    DiffInsert(usize, usize),
    /// The block before is asked for.
    Parent,
    /// The block is asked for again, for its metadata.
    Header,
    /// Its signer is asked for.
    Signer,
    /// The hashes of the blocks are asked for.
    Hashes,
    /// All is gathered.
    Done,
}

/// How far gathering has come, with positions as numbers.
pub enum Phase {
    Target,
    Block,
    ChainId,
    Transaction(nat),
    PreTrace(nat),
    PreInsert(nat),
    DiffTrace(nat),
    DiffInsert(nat, nat),
    Parent,
    Header,
    Signer,
    Hashes,
    Done,
}

impl View for Stage {
    type V = Phase;

    open spec fn view(&self) -> Phase {
        match *self {
            Stage::Target => Phase::Target,
            Stage::Block => Phase::Block,
            Stage::ChainId => Phase::ChainId,
            Stage::Transaction(i) => Phase::Transaction(i as nat),
            Stage::PreTrace(i) => Phase::PreTrace(i as nat),
            Stage::PreInsert(i) => Phase::PreInsert(i as nat),
            Stage::DiffTrace(i) => Phase::DiffTrace(i as nat),
            Stage::DiffInsert(i, j) => Phase::DiffInsert(i as nat, j as nat),
            Stage::Parent => Phase::Parent,
            Stage::Header => Phase::Header,
            Stage::Signer => Phase::Signer,
            Stage::Hashes => Phase::Hashes,
            Stage::Done => Phase::Done,
        }
    }
}

/// A witness in the making.
#[derive(Debug)]
pub struct Gathering {
    pub tx: H256,
    pub request_miner_from_clique: bool,
    pub stage: Stage,
    pub block_number: u64,
    pub tx_index: u64,
    pub hashes: Vec<H256>,
    pub chain_id: U256,
    pub current: Option<Transaction>,
    pub addresses: Vec<Address>,
    pub state: Accounts,
    pub traces: Vec<Accounts>,
    pub transactions: Vec<Transaction>,
    pub rlps: Vec<Vec<u8>>,
    pub contract_codes: ContractCodes,
    pub pending: Vec<(Address, AccountState)>,
    pub parent: Option<Block>,
    pub header: Option<BlockHeader>,
    pub metadata: Option<(BlockMetadata, H256)>,
    pub block_hashes: Option<BlockHashes>,
}

/// A witness in the making, as a mathematical value.
pub struct Progress {
    /// The transaction to prove.
    pub tx: H256,
    /// Whether the beneficiary is the signer of the block, not its author.
    pub request_miner_from_clique: bool,
    /// How far gathering has come.
    pub phase: Phase,
    /// The number of the block that holds the transaction.
    pub block_number: u64,
    /// Where the transaction stands in the block.
    pub tx_index: u64,
    /// The hashes of the transactions of the block, and, once the id of the
    /// chain is known, of those up to the one to prove.
    pub hashes: Seq<H256>,
    /// The id of the chain.
    pub chain_id: U256,
    /// The transaction that was fetched and is not traced yet.
    pub current: Option<Transaction>,
    /// The addresses that the traces have seen.
    pub addresses: Seq<Address>,
    /// The state that the traces add up to.
    pub state: AccountsView,
    /// The traces.
    pub traces: Seq<AccountsView>,
    /// The transactions that were traced.
    pub transactions: Seq<Transaction>,
    /// Their encodings.
    pub rlps: Seq<Seq<u8>>,
    /// Contract code by its hash.
    pub codes: Map<U256, Seq<u8>>,
    /// The changes of a transaction that go into the state tree.
    pub pending: Seq<(Address, AccountStateView)>,
    /// The block before.
    pub parent: Option<Block>,
    /// The header of the block.
    pub header: Option<BlockHeader>,
    /// Its metadata, and the state root that it ends with.
    pub metadata: Option<(BlockMetadataView, H256)>,
    /// The hashes of the block and of those before it.
    pub block_hashes: Option<BlockHashes>,
}

/// Changes of accounts, in the order in which they are held.
pub open spec fn pending_view(pending: Seq<(Address, AccountState)>) -> Seq<
    (Address, AccountStateView),
> {
    pending.map_values(|entry: (Address, AccountState)| (entry.0, entry.1@))
}

impl View for Gathering {
    type V = Progress;

    open spec fn view(&self) -> Progress {
        Progress {
            tx: self.tx,
            request_miner_from_clique: self.request_miner_from_clique,
            phase: self.stage@,
            block_number: self.block_number,
            tx_index: self.tx_index,
            hashes: self.hashes@,
            chain_id: self.chain_id,
            current: self.current,
            addresses: self.addresses@,
            state: self.state@,
            traces: self.traces@.map_values(|trace: Accounts| trace@),
            transactions: self.transactions@,
            rlps: self.rlps@.map_values(|rlp: Vec<u8>| rlp@),
            codes: self.contract_codes@,
            pending: pending_view(self.pending@),
            parent: self.parent,
            header: self.header,
            metadata: match self.metadata {
                Some((metadata, root)) => Some((metadata@, root)),
                None => None,
            },
            block_hashes: self.block_hashes,
        }
    }
}

/// The first of the hashes, up to the one at position `tx_index`.
pub open spec fn up_to(hashes: Seq<H256>, tx_index: u64) -> Seq<H256> {
    let count = (tx_index as usize) + 1;
    if count < hashes.len() {
        hashes.take(count)
    } else {
        hashes
    }
}

impl Progress {
    /// The accounts of the state, in ascending order of their addresses.
    pub open spec fn entries(self) -> Seq<(Address, AccountStateView)> {
        listing(self.state)
    }

    /// What has come so far suffices for what is done next.
    pub open spec fn wf(self) -> bool {
        match self.phase {
            Phase::Transaction(i) => i < self.hashes.len(),
            Phase::PreTrace(i) => i < self.hashes.len() && self.current is Some,
            Phase::PreInsert(i) => i < self.entries().len(),
            Phase::DiffTrace(i) => i < self.hashes.len(),
            Phase::DiffInsert(i, j) => i < self.hashes.len() && j < self.pending.len(),
            Phase::Header => self.parent is Some,
            Phase::Signer => self.parent is Some && self.header is Some && self.header->0.hash is Some,
            Phase::Hashes => self.parent is Some && self.metadata is Some,
            Phase::Done => self.parent is Some && self.metadata is Some
                && self.block_hashes is Some,
            _ => true,
        }
    }

    /// There is a next thing to do: the first block has none before it.
    pub open spec fn askable(self) -> bool {
        self.phase is Parent ==> self.block_number > 0
    }

    /// What is to be done next.
    pub open spec fn request(self) -> RequestView {
        match self.phase {
            Phase::Target => RequestView::GetTransaction(self.tx),
            Phase::Block => RequestView::GetBlock(self.block_number),
            Phase::ChainId => RequestView::FetchChainId,
            Phase::Transaction(i) => RequestView::GetTransaction(self.hashes[i as int]),
            Phase::PreTrace(i) => RequestView::TraceTransaction(
                self.hashes[i as int],
                pre_state_options(),
            ),
            Phase::PreInsert(i) => RequestView::InsertPreState(
                self.entries()[i as int].0,
                self.entries()[i as int].1,
            ),
            Phase::DiffTrace(i) => RequestView::TraceTransaction(
                self.hashes[i as int],
                diff_options(),
            ),
            Phase::DiffInsert(_, j) => RequestView::InsertDiff(
                self.pending[j as int].0,
                self.pending[j as int].1,
            ),
            Phase::Parent => RequestView::GetBlock((self.block_number - 1) as u64),
            Phase::Header => RequestView::GetBlock(self.block_number),
            Phase::Signer => RequestView::FetchSigner(self.header->0.hash->0),
            Phase::Hashes => RequestView::FetchBlockHashes(self.block_number),
            Phase::Done => RequestView::Finished,
        }
    }

    /// The reply answers the request, and holds what is read of it.
    pub open spec fn accepts(self, reply: Reply) -> bool {
        match (self.phase, reply) {
            (Phase::Target, Reply::Transaction(found)) => found matches Some(transaction) ==> {
                &&& transaction.block_number is Some
                &&& transaction.transaction_index is Some
            },
            (Phase::Block, Reply::Block(_)) => true,
            (Phase::ChainId, Reply::ChainId(_)) => (self.tx_index as usize) < usize::MAX,
            (Phase::Transaction(_), Reply::Transaction(_)) => true,
            (Phase::PreTrace(_), Reply::Trace(Trace::PreState(_))) => encodable(
                self.current->0.signed@,
            ),
            (Phase::PreInsert(i), Reply::Inserted) => self.entries()[i as int].1.code matches Some(
                code,
            ) ==> has_prefix(code),
            (Phase::DiffTrace(_), Reply::Trace(Trace::Diff(_, _))) => true,
            (Phase::DiffInsert(_, _), Reply::Inserted) => true,
            (Phase::Parent, Reply::Block(_)) => self.block_number > 0,
            (Phase::Header, Reply::Block(found)) => found matches Some(block) ==> {
                &&& names_beneficiary(block.header, self.request_miner_from_clique)
                &&& !self.request_miner_from_clique ==> complete(block.header)
            },
            (Phase::Signer, Reply::Signer(_)) => complete(self.header->0),
            (Phase::Hashes, Reply::BlockHashes(_)) => true,
            _ => false,
        }
    }

    /// The phase in which the changes of the transaction at position `i` are
    /// asked for, or what comes after the last one.
    pub open spec fn at_diff(self, i: nat) -> Phase {
        if i < self.hashes.len() {
            Phase::DiffTrace(i)
        } else {
            Phase::Parent
        }
    }

    /// The phase in which the account at position `i` is put into the tree, or
    /// what comes after the last one.
    pub open spec fn at_account(self, i: nat) -> Phase {
        if i < self.entries().len() {
            Phase::PreInsert(i)
        } else {
            self.at_diff(0)
        }
    }

    /// The phase in which the transaction at position `i` is asked for, or what
    /// comes after the last one.
    pub open spec fn at_transaction(self, i: nat) -> Phase {
        if i < self.hashes.len() {
            Phase::Transaction(i)
        } else {
            self.at_account(0)
        }
    }

    /// The phase in which the change at position `j` is put into the tree, or
    /// what comes after the last one.
    pub open spec fn at_change(self, i: nat, j: nat) -> Phase {
        if j < self.pending.len() {
            Phase::DiffInsert(i, j)
        } else {
            self.at_diff(i + 1)
        }
    }

    /// A transaction was traced.
    pub open spec fn traced(self, transaction: Transaction, rlp: Seq<u8>, trace: AccountsView) -> Self {
        Progress {
            addresses: self.addresses + addresses_of(trace),
            state: with_trace(self.state, trace),
            traces: self.traces.push(trace),
            transactions: self.transactions.push(transaction),
            rlps: self.rlps.push(rlp),
            ..self
        }
    }

    /// The beneficiary is known.
    pub open spec fn with_metadata(self, header: BlockHeader, beneficiary: Address) -> Self {
        Progress {
            header: Some(header),
            metadata: Some(
                (
                    metadata_of(self.block_number, self.chain_id, header, beneficiary),
                    header.state_root,
                ),
            ),
            phase: Phase::Hashes,
            ..self
        }
    }

    /// What becomes of the witness when a reply comes.
    pub open spec fn next(self, reply: Reply) -> Result<Progress, GatherError> {
        match (self.phase, reply) {
            (Phase::Target, Reply::Transaction(Some(transaction))) => Ok(
                Progress {
                    block_number: transaction.block_number->0,
                    tx_index: transaction.transaction_index->0,
                    phase: Phase::Block,
                    ..self
                },
            ),
            (Phase::Block, Reply::Block(Some(block))) => Ok(
                Progress { hashes: block.transactions@, phase: Phase::ChainId, ..self },
            ),
            (Phase::ChainId, Reply::ChainId(chain_id)) => {
                let known = Progress { hashes: up_to(self.hashes, self.tx_index), chain_id, ..self };
                Ok(Progress { phase: known.at_transaction(0), ..known })
            },
            (Phase::Transaction(i), Reply::Transaction(Some(transaction))) => Ok(
                Progress { current: Some(transaction), phase: Phase::PreTrace(i), ..self },
            ),
            (Phase::PreTrace(i), Reply::Trace(Trace::PreState(trace))) => {
                let transaction = self.current->0;
                let traced = Progress { current: None, ..self }.traced(
                    transaction,
                    transaction_rlp(transaction.signed@),
                    trace@,
                );
                Ok(Progress { phase: traced.at_transaction(i + 1), ..traced })
            },
            (Phase::PreInsert(i), Reply::Inserted) => {
                let past = Progress { phase: self.at_account(i + 1), ..self };
                match self.entries()[i as int].1.code {
                    Some(code) => match code_decoded(code) {
                        Ok(bytes) => Ok(Progress { codes: with_code(self.codes, bytes), ..past }),
                        Err(error) => Err(GatherError::Code(error)),
                    },
                    None => Ok(past),
                }
            },
            (Phase::DiffTrace(i), Reply::Trace(Trace::Diff(before, after))) => {
                let changed = Progress { pending: listing(before@) + listing(after@), ..self };
                Ok(Progress { phase: changed.at_change(i, 0), ..changed })
            },
            (Phase::DiffInsert(i, j), Reply::Inserted) => Ok(
                Progress { phase: self.at_change(i, j + 1), ..self },
            ),
            (Phase::Parent, Reply::Block(Some(block))) => Ok(
                Progress { parent: Some(block), phase: Phase::Header, ..self },
            ),
            (Phase::Header, Reply::Block(Some(block))) => {
                match beneficiary_of(block.header, self.request_miner_from_clique) {
                    Beneficiary::Author(author) => Ok(self.with_metadata(block.header, author)),
                    Beneficiary::SignerOf(_) => Ok(
                        Progress { header: Some(block.header), phase: Phase::Signer, ..self },
                    ),
                }
            },
            (Phase::Signer, Reply::Signer(signer)) => Ok(self.with_metadata(self.header->0, signer)),
            (Phase::Hashes, Reply::BlockHashes(hashes)) => Ok(
                Progress { block_hashes: Some(hashes), phase: Phase::Done, ..self },
            ),
            (_, Reply::Transaction(_)) => Err(GatherError::NotFound(NotFound::Transaction)),
            (Phase::Parent, _) => Err(
                GatherError::NotFound(NotFound::Block((self.block_number - 1) as u64)),
            ),
            _ => Err(GatherError::NotFound(NotFound::Block(self.block_number))),
        }
    }
}

/// The witness before anything is asked.
pub open spec fn start(
    tx: H256,
    request_miner_from_clique: bool,
    empty_code_hash: U256,
) -> Progress {
    Progress {
        tx,
        request_miner_from_clique,
        phase: Phase::Target,
        block_number: 0,
        tx_index: 0,
        hashes: Seq::empty(),
        chain_id: word(0),
        current: None,
        addresses: Seq::empty(),
        state: Map::empty(),
        traces: Seq::empty(),
        transactions: Seq::empty(),
        rlps: Seq::empty(),
        codes: map![empty_code_hash => Seq::<u8>::empty()],
        pending: Seq::empty(),
        parent: None,
        header: None,
        metadata: None,
        block_hashes: None,
    }
}

/// Starts to gather what the proof of the transaction `tx` needs.
/// `empty_code_hash` is the hash under which the state tree knows empty code.
pub fn gather_witness(tx: H256, request_miner_from_clique: bool, empty_code_hash: U256) -> (g: Gathering)
    ensures
        g@ == start(tx, request_miner_from_clique, empty_code_hash),
        g@.wf(),
        g.tx == tx,
        g.request_miner_from_clique == request_miner_from_clique,
        g.stage == Stage::Target,
        g.contract_codes@ == map![empty_code_hash => Seq::<u8>::empty()],
        g.addresses@.len() == 0,
        g.state@ == Map::<Address, AccountStateView>::empty(),
        g.traces@.len() == 0,
        g.transactions@.len() == 0,
        g.rlps@.len() == 0,
{
    let chain_id = U256::from_u64(0);
    proof {
        lemma_word(chain_id);
    }
    let g = Gathering {
        tx,
        request_miner_from_clique,
        stage: Stage::Target,
        block_number: 0,
        tx_index: 0,
        hashes: Vec::new(),
        chain_id,
        current: None,
        addresses: Vec::new(),
        state: SortedMap::new(),
        traces: Vec::new(),
        transactions: Vec::new(),
        rlps: Vec::new(),
        contract_codes: contract_codes(empty_code_hash),
        pending: Vec::new(),
        parent: None,
        header: None,
        metadata: None,
        block_hashes: None,
    };
    proof {
        let p = g@;
        let q = start(tx, request_miner_from_clique, empty_code_hash);
        assert(p.traces =~= q.traces);
        assert(p.rlps =~= q.rlps);
        assert(p.pending =~= q.pending);
    }
    g
}

/// Everything that the proof of a transaction is made from.
pub struct Witness {
    pub block_number: u64,
    pub chain_id: U256,
    pub addresses: Vec<Address>,
    pub state: Accounts,
    pub traces: Vec<Accounts>,
    pub transactions: Vec<Transaction>,
    pub rlps: Vec<Vec<u8>>,
    pub contract_codes: ContractCodes,
    pub parent: Block,
    pub metadata: BlockMetadata,
    pub state_root: H256,
    pub block_hashes: BlockHashes,
    pub transactions_trie: HashedPartialTrie,
    pub receipts_trie: HashedPartialTrie,
    pub gas_used: U256,
    pub bloom: Bloom,
    pub withdrawals: Vec<(Address, U256)>,
}

impl Gathering {
    /// Whether there is a next thing to do.
    pub fn can_ask(&self) -> (yes: bool)
        ensures
            yes == self@.askable(),
            yes <==> !(self.stage is Parent && self.block_number == 0),
    {
        match self.stage {
            Stage::Parent => self.block_number > 0,
            _ => true,
        }
    }

    /// What is to be done next.
    pub fn request(&self) -> (request: Request<'_>)
        requires
            self@.wf(),
            self@.askable(),
        ensures
            request@ == self@.request(),
            match (self.stage, request) {
                (Stage::Target, Request::GetTransaction(hash)) => hash == self.tx,
                (Stage::Block, Request::GetBlock(number)) => number == self.block_number,
                (Stage::ChainId, Request::FetchChainId) => true,
                (Stage::Transaction(i), Request::GetTransaction(hash)) => hash
                    == self.hashes@[i as int],
                (Stage::PreTrace(i), Request::TraceTransaction(hash, options)) => {
                    &&& hash == self.hashes@[i as int]
                    &&& options.tracer == Some(BuiltInTracer::PreState)
                    &&& options.tracer_config is None
                },
                (Stage::PreInsert(i), Request::InsertPreState(address, account)) => (
                    address,
                    account@,
                ) == listing(self.state@)[i as int],
                (Stage::DiffTrace(i), Request::TraceTransaction(hash, options)) => {
                    &&& hash == self.hashes@[i as int]
                    &&& options.tracer == Some(BuiltInTracer::PreState)
                    &&& options.tracer_config == Some(PreStateConfig { diff_mode: Some(true) })
                },
                (Stage::DiffInsert(_, j), Request::InsertDiff(address, account)) => {
                    &&& address == self.pending@[j as int].0
                    &&& account@ == self.pending@[j as int].1@
                },
                (Stage::Parent, Request::GetBlock(number)) => number + 1 == self.block_number,
                (Stage::Header, Request::GetBlock(number)) => number == self.block_number,
                (Stage::Signer, Request::FetchSigner(hash)) => self.header matches Some(header)
                    && header.hash == Some(hash),
                (Stage::Hashes, Request::FetchBlockHashes(number)) => number == self.block_number,
                (Stage::Done, Request::Finished) => true,
                _ => false,
            },
    {
        match self.stage {
            Stage::Target => Request::GetTransaction(self.tx),
            Stage::Block => Request::GetBlock(self.block_number),
            Stage::ChainId => Request::FetchChainId,
            Stage::Transaction(i) => Request::GetTransaction(self.hashes[i]),
            Stage::PreTrace(i) => Request::TraceTransaction(self.hashes[i], tracing_options()),
            Stage::PreInsert(i) => {
                let (address, account) = self.state.entry(i);
                Request::InsertPreState(address, account)
            },
            Stage::DiffTrace(i) => Request::TraceTransaction(
                self.hashes[i],
                tracing_options_diff(),
            ),
            Stage::DiffInsert(_, j) => Request::InsertDiff(self.pending[j].0, &self.pending[j].1),
            Stage::Parent => Request::GetBlock(self.block_number - 1),
            Stage::Header => Request::GetBlock(self.block_number),
            Stage::Signer => Request::FetchSigner(self.header.unwrap().hash.unwrap()),
            Stage::Hashes => Request::FetchBlockHashes(self.block_number),
            Stage::Done => Request::Finished,
        }
    }

    /// Whether a reply answers the request and holds what is read of it.
    pub fn accepts(&self, reply: &Reply) -> (yes: bool)
        requires
            self@.wf(),
        ensures
            yes == self@.accepts(*reply),
    {
        match (self.stage, reply) {
            (Stage::Target, Reply::Transaction(found)) => match found {
                Some(transaction) => transaction.block_number.is_some()
                    && transaction.transaction_index.is_some(),
                None => true,
            },
            (Stage::Block, Reply::Block(_)) => true,
            (Stage::ChainId, Reply::ChainId(_)) => (self.tx_index as usize) < usize::MAX,
            (Stage::Transaction(_), Reply::Transaction(_)) => true,
            (Stage::PreTrace(_), Reply::Trace(Trace::PreState(_))) => match &self.current {
                Some(transaction) => can_encode(&transaction.signed),
                None => false,
            },
            (Stage::PreInsert(i), Reply::Inserted) => {
                let (_, account) = self.state.entry(i);
                match &account.code {
                    Some(code) => is_prefixed(code),
                    None => true,
                }
            },
            (Stage::DiffTrace(_), Reply::Trace(Trace::Diff(_, _))) => true,
            (Stage::DiffInsert(_, _), Reply::Inserted) => true,
            (Stage::Parent, Reply::Block(_)) => self.block_number > 0,
            (Stage::Header, Reply::Block(found)) => match found {
                Some(block) => tells_beneficiary(&block.header, self.request_miner_from_clique) && (
                self.request_miner_from_clique || is_complete(&block.header)),
                None => true,
            },
            (Stage::Signer, Reply::Signer(_)) => match &self.header {
                Some(header) => is_complete(header),
                None => false,
            },
            (Stage::Hashes, Reply::BlockHashes(_)) => true,
            _ => false,
        }
    }

    /// The stage in which the changes of the transaction at position `i` are
    /// asked for, or what comes after the last one.
    fn diff_stage(&self, i: usize) -> (stage: Stage)
        ensures
            stage@ == self@.at_diff(i as nat),
    {
        if i < self.hashes.len() {
            Stage::DiffTrace(i)
        } else {
            Stage::Parent
        }
    }

    /// The stage in which the account at position `i` is put into the tree, or
    /// what comes after the last one.
    fn account_stage(&self, i: usize) -> (stage: Stage)
        ensures
            stage@ == self@.at_account(i as nat),
    {
        if i < self.state.len() {
            Stage::PreInsert(i)
        } else {
            self.diff_stage(0)
        }
    }

    /// The stage in which the transaction at position `i` is asked for, or what
    /// comes after the last one.
    fn transaction_stage(&self, i: usize) -> (stage: Stage)
        ensures
            stage@ == self@.at_transaction(i as nat),
    {
        if i < self.hashes.len() {
            Stage::Transaction(i)
        } else {
            self.account_stage(0)
        }
    }

    /// The stage in which the change at position `j` is put into the tree, or
    /// what comes after the last one.
    fn change_stage(&self, i: usize, j: usize) -> (stage: Stage)
        requires
            i < self.hashes@.len(),
        ensures
            stage@ == self@.at_change(i as nat, j as nat),
    {
        if j < self.pending.len() {
            Stage::DiffInsert(i, j)
        } else {
            assert(i < self.hashes.len());
            self.diff_stage(i + 1)
        }
    }

    /// Takes up a transaction with its encoding and its trace.
    pub fn add_traced(&mut self, transaction: Transaction, rlp: Vec<u8>, trace: Accounts)
        ensures
            final(self)@ == old(self)@.traced(transaction, rlp@, trace@),
            final(self).stage == old(self).stage,
            final(self).transactions@ == old(self).transactions@.push(transaction),
            final(self).rlps@ == old(self).rlps@.push(rlp),
            final(self).traces@ == old(self).traces@.push(trace),
            final(self).contract_codes == old(self).contract_codes,
            forall|address: Address| #[trigger]
                final(self).state@.contains_key(address) <==> old(self).state@.contains_key(address)
                    || trace@.contains_key(address),
    {
        let ghost before = *self;
        add_trace(&mut self.state, &mut self.addresses, &trace);
        self.traces.push(trace);
        self.transactions.push(transaction);
        self.rlps.push(rlp);
        proof {
            let p = self@;
            let q = before@.traced(transaction, rlp@, trace@);
            assert(p.traces =~= q.traces);
            assert(p.rlps =~= q.rlps);
        }
    }

    /// Takes up the header of the block, of which the beneficiary is known.
    fn add_metadata(&mut self, header: BlockHeader, beneficiary: Address)
        requires
            complete(header),
        ensures
            final(self)@ == old(self)@.with_metadata(header, beneficiary),
    {
        let metadata = header_metadata(self.block_number, self.chain_id, &header, beneficiary);
        self.header = Some(header);
        self.metadata = Some(metadata);
        self.stage = Stage::Hashes;
    }

    /// Takes up the reply to the request: goes on to what is to be done next, or
    /// fails.
    pub fn step(self, reply: Reply) -> (outcome: Result<Gathering, GatherError>)
        requires
            self@.wf(),
            self@.accepts(reply),
        ensures
            match (outcome, self@.next(reply)) {
                (Ok(g), Ok(p)) => g@ == p && p.wf(),
                (Err(error), Err(cause)) => error == cause,
                _ => false,
            },
    {
        let mut g = self;
        let ghost before = g@;
        match (g.stage, reply) {
            (Stage::Target, Reply::Transaction(found)) => match found {
                Some(transaction) => {
                    g.block_number = transaction.block_number.unwrap();
                    g.tx_index = transaction.transaction_index.unwrap();
                    g.stage = Stage::Block;
                    Ok(g)
                },
                None => Err(GatherError::NotFound(NotFound::Transaction)),
            },
            (Stage::Block, Reply::Block(found)) => match found {
                Some(block) => {
                    g.hashes = block.transactions;
                    g.stage = Stage::ChainId;
                    Ok(g)
                },
                None => Err(GatherError::NotFound(NotFound::Block(g.block_number))),
            },
            (Stage::ChainId, Reply::ChainId(chain_id)) => {
                let count: usize = #[verifier::truncate] (g.tx_index as usize) + 1;
                if count < g.hashes.len() {
                    g.hashes.truncate(count);
                }
                g.chain_id = chain_id;
                assert(g.hashes@ =~= up_to(before.hashes, before.tx_index));
                g.stage = g.transaction_stage(0);
                Ok(g)
            },
            (Stage::Transaction(i), Reply::Transaction(found)) => match found {
                Some(transaction) => {
                    g.current = Some(transaction);
                    g.stage = Stage::PreTrace(i);
                    Ok(g)
                },
                None => Err(GatherError::NotFound(NotFound::Transaction)),
            },
            (Stage::PreTrace(i), Reply::Trace(Trace::PreState(trace))) => {
                let transaction = g.current.unwrap();
                g.current = None;
                let rlp = encode_transaction(&transaction.signed);
                g.add_traced(transaction, rlp, trace);
                assert(i < g.hashes.len());
                g.stage = g.transaction_stage(i + 1);
                Ok(g)
            },
            (Stage::PreInsert(i), Reply::Inserted) => {
                let total = g.state.len();
                assert(i < total);
                let (_, account) = g.state.entry(i);
                let added = match &account.code {
                    Some(code) => add_code(&mut g.contract_codes, code),
                    None => Ok(()),
                };
                match added {
                    Ok(_) => {
                        g.stage = g.account_stage(i + 1);
                        Ok(g)
                    },
                    Err(error) => Err(GatherError::Code(error)),
                }
            },
            (Stage::DiffTrace(i), Reply::Trace(Trace::Diff(pre, post))) => {
                let mut pending: Vec<(Address, AccountState)> = Vec::new();
                push_accounts(&mut pending, &pre);
                push_accounts(&mut pending, &post);
                g.pending = pending;
                assert(g@.pending =~= listing(pre@) + listing(post@));
                g.stage = g.change_stage(i, 0);
                Ok(g)
            },
            (Stage::DiffInsert(i, j), Reply::Inserted) => {
                assert(j < g.pending.len());
                g.stage = g.change_stage(i, j + 1);
                Ok(g)
            },
            (Stage::Parent, Reply::Block(found)) => match found {
                Some(block) => {
                    g.parent = Some(block);
                    g.stage = Stage::Header;
                    Ok(g)
                },
                None => Err(GatherError::NotFound(NotFound::Block(g.block_number - 1))),
            },
            (Stage::Header, Reply::Block(found)) => match found {
                Some(block) => {
                    match block_beneficiary(&block.header, g.request_miner_from_clique) {
                        Beneficiary::Author(author) => g.add_metadata(block.header, author),
                        Beneficiary::SignerOf(_) => {
                            g.header = Some(block.header);
                            g.stage = Stage::Signer;
                        },
                    }
                    Ok(g)
                },
                None => Err(GatherError::NotFound(NotFound::Block(g.block_number))),
            },
            (Stage::Signer, Reply::Signer(signer)) => {
                let header = g.header.unwrap();
                g.add_metadata(header, signer);
                Ok(g)
            },
            (Stage::Hashes, Reply::BlockHashes(hashes)) => {
                g.block_hashes = Some(hashes);
                g.stage = Stage::Done;
                Ok(g)
            },
            _ => {
                assert(false);
                Ok(g)
            },
        }
    }

    /// Hands over what was gathered, with the tries and totals that the first
    /// transaction starts from.
    pub fn finish(self) -> (witness: Witness)
        requires
            self@.wf(),
            self@.phase is Done,
        ensures
            witness.block_number == self.block_number,
            witness.chain_id == self.chain_id,
            witness.addresses == self.addresses,
            witness.state == self.state,
            witness.traces == self.traces,
            witness.transactions == self.transactions,
            witness.rlps == self.rlps,
            witness.contract_codes == self.contract_codes,
            self.parent == Some(witness.parent),
            self.metadata == Some((witness.metadata, witness.state_root)),
            self.block_hashes == Some(witness.block_hashes),
            trie_nodes(witness.transactions_trie) == no_nodes(),
            trie_nodes(witness.receipts_trie) == no_nodes(),
            witness.gas_used.value() == 0,
            witness.bloom.0@ == Seq::new(256, |i: int| 0u8),
            witness.withdrawals@.len() == 0,
    {
        let (metadata, state_root) = self.metadata.unwrap();
        let bloom = Bloom([0u8;256]);
        assert(bloom.0@ =~= Seq::new(256, |i: int| 0u8));
        Witness {
            block_number: self.block_number,
            chain_id: self.chain_id,
            addresses: self.addresses,
            state: self.state,
            traces: self.traces,
            transactions: self.transactions,
            rlps: self.rlps,
            contract_codes: self.contract_codes,
            parent: self.parent.unwrap(),
            metadata,
            state_root,
            block_hashes: self.block_hashes.unwrap(),
            transactions_trie: empty_trie(),
            receipts_trie: empty_trie(),
            gas_used: U256::from_u64(0),
            bloom,
            withdrawals: Vec::new(),
        }
    }
}

/// Appends accounts in ascending order of their addresses.
fn push_accounts(pending: &mut Vec<(Address, AccountState)>, accounts: &Accounts)
    ensures
        pending_view(final(pending)@) == pending_view(old(pending)@) + listing(accounts@),
{
    let count = accounts.len();
    let ghost entries = listing(accounts@);
    let ghost before = pending_view(pending@);
    let mut i: usize = 0;
    assert(before + entries.take(0) =~= before);
    while i < count
        invariant
            i <= count,
            count == entries.len(),
            entries == listing(accounts@),
            pending_view(pending@) == before + entries.take(i as int),
        decreases count - i,
    {
        let ghost held = pending@;
        let (address, account) = accounts.entry(i);
        pending.push((address, account.duplicate()));
        assert(pending_view(pending@) =~= pending_view(held).push(entries[i as int]));
        assert(before + entries.take(i + 1) =~= (before + entries.take(i as int)).push(
            entries[i as int],
        ));
        i = i + 1;
    }
    assert(entries.take(count as int) =~= entries);
}

} // verus!
