//! Blocks and the metadata that proofs take from them.
use crate::codec::{be_word, read_word};
use crate::errors::NotFound;
use crate::primitives::{
    be_value, lemma_be_value_injective, lemma_bytes_fit_word, lemma_word, lemma_word_value, word, Address, Bloom, H256, U256,
};
use vstd::prelude::*;
use vstd::slice::slice_subrange;

verus! {

/// The header of a block, as the node reports it.
#[derive(Clone, Copy, Debug, PartialEq, Eq)]
pub struct BlockHeader {
    pub hash: Option<H256>,
    pub author: Option<Address>,
    pub state_root: H256,
    pub gas_used: U256,
    pub gas_limit: U256,
    pub logs_bloom: Option<Bloom>,
    pub timestamp: U256,
    pub difficulty: U256,
    pub mix_hash: Option<H256>,
    pub base_fee_per_gas: Option<U256>,
}

/// A block: its header and the hashes of its transactions.
#[derive(Debug, PartialEq, Eq)]
pub struct Block {
    pub header: BlockHeader,
    pub transactions: Vec<H256>,
}

/// What a block holds.
pub struct BlockView {
    pub header: BlockHeader,
    pub transactions: Seq<H256>,
}

impl View for Block {
    type V = BlockView;

    open spec fn view(&self) -> BlockView {
        BlockView { header: self.header, transactions: self.transactions@ }
    }
}

/// What proofs take from the header of a block.
#[derive(Clone, Copy, Debug, PartialEq, Eq)]
pub struct BlockMetadata {
    pub block_beneficiary: Address,
    pub block_timestamp: U256,
    pub block_number: U256,
    pub block_difficulty: U256,
    pub block_gaslimit: U256,
    pub block_chain_id: U256,
    pub block_base_fee: U256,
    pub block_bloom: [U256; 8],
    pub block_gas_used: U256,
    pub block_random: H256,
}

/// Block metadata, with the filter as a sequence of words.
pub struct BlockMetadataView {
    pub block_beneficiary: Address,
    pub block_timestamp: U256,
    pub block_number: U256,
    pub block_difficulty: U256,
    pub block_gaslimit: U256,
    pub block_chain_id: U256,
    pub block_base_fee: U256,
    pub block_bloom: Seq<U256>,
    pub block_gas_used: U256,
    pub block_random: H256,
}

impl View for BlockMetadata {
    type V = BlockMetadataView;

    open spec fn view(&self) -> BlockMetadataView {
        BlockMetadataView {
            block_beneficiary: self.block_beneficiary,
            block_timestamp: self.block_timestamp,
            block_number: self.block_number,
            block_difficulty: self.block_difficulty,
            block_gaslimit: self.block_gaslimit,
            block_chain_id: self.block_chain_id,
            block_base_fee: self.block_base_fee,
            block_bloom: self.block_bloom@,
            block_gas_used: self.block_gas_used,
            block_random: self.block_random,
        }
    }
}

/// The hash of a block and those of the blocks before it.
#[derive(Debug, PartialEq, Eq)]
pub struct BlockHashes {
    pub prev_hashes: Vec<H256>,
    pub cur_hash: H256,
}

/// The `i`-th 32 bytes of a log filter.
pub open spec fn bloom_chunk(bloom: Bloom, i: int) -> Seq<u8> {
    bloom.0@.subrange(i * 32, (i + 1) * 32)
}

/// A log filter as eight big-endian words.
pub open spec fn bloom_words(bloom: Bloom) -> Seq<U256> {
    Seq::new(8, |i: int| be_word(bloom_chunk(bloom, i)))
}

/// Cuts a log filter into eight big-endian words.
pub fn convert_bloom(bloom: Bloom) -> (words: [U256; 8])
    ensures
        words@ == bloom_words(bloom),
        forall|i: int|
            0 <= i < 8 ==> (#[trigger] words@[i]).value() == be_value(bloom_chunk(bloom, i)),
        forall|i: int|
            0 <= i < 8 ==> (#[trigger] words@[i]).value() == be_value(
                bloom.0@.subrange(i * 32, (i + 1) * 32),
            ),
{
    let mut words = [U256([0, 0, 0, 0]);8];
    let mut i: usize = 0;
    while i < 8
        invariant
            i <= 8,
            forall|j: int| 0 <= j < i ==> (#[trigger] words@[j]) == be_word(bloom_chunk(bloom, j)),
            forall|j: int|
                0 <= j < i ==> (#[trigger] words@[j]).value() == be_value(bloom_chunk(bloom, j)),
        decreases 8 - i,
    {
        let chunk = slice_subrange(&bloom.0, i * 32, (i + 1) * 32);
        assert(chunk@ =~= bloom_chunk(bloom, i as int));
        words[i] = read_word(chunk);
        i = i + 1;
    }
    assert(words@ =~= bloom_words(bloom));
    words
}

/// A log filter is known by its words: none is lost when it is cut.
pub proof fn law_bloom_words_injective(a: Bloom, b: Bloom)
    requires
        bloom_words(a) == bloom_words(b),
    ensures
        a == b,
{
    assert forall|k: int| 0 <= k < 256 implies a.0[k] == b.0[k] by {
        let i = k / 32;
        assert(be_word(bloom_chunk(a, i)) == bloom_words(a)[i]);
        assert(be_word(bloom_chunk(b, i)) == bloom_words(b)[i]);
        lemma_bytes_fit_word(bloom_chunk(a, i));
        lemma_bytes_fit_word(bloom_chunk(b, i));
        lemma_be_value_injective(bloom_chunk(a, i), bloom_chunk(b, i));
        assert(a.0@[k] == bloom_chunk(a, i)[k - i * 32]);
        assert(b.0@[k] == bloom_chunk(b, i)[k - i * 32]);
    }
    assert(a.0 =~= b.0);
}

/// The header names what its metadata are made of.
pub open spec fn complete(header: BlockHeader) -> bool {
    &&& header.base_fee_per_gas is Some
    &&& header.logs_bloom is Some
    &&& header.mix_hash is Some
}

/// The header names the one from whom, or the hash by which, its beneficiary is
/// known.
pub open spec fn names_beneficiary(header: BlockHeader, request_miner_from_clique: bool) -> bool {
    if request_miner_from_clique {
        header.hash is Some
    } else {
        header.author is Some
    }
}

/// Where the beneficiary of a block is found.
#[derive(Clone, Copy, Debug, PartialEq, Eq)]
pub enum Beneficiary {
    /// It is the author that the header names.
    Author(Address),
    /// It is the signer of the block with this hash, whom the node is asked for.
    SignerOf(H256),
}

/// Where the beneficiary of a block is found.
pub open spec fn beneficiary_of(header: BlockHeader, request_miner_from_clique: bool) -> Beneficiary {
    if request_miner_from_clique {
        Beneficiary::SignerOf(header.hash->0)
    } else {
        Beneficiary::Author(header.author->0)
    }
}

/// The metadata of a block of which the beneficiary is known.
pub open spec fn metadata_of(
    block_number: u64,
    block_chain_id: U256,
    header: BlockHeader,
    block_beneficiary: Address,
) -> BlockMetadataView {
    BlockMetadataView {
        block_beneficiary,
        block_timestamp: header.timestamp,
        block_number: word(block_number as nat),
        block_difficulty: header.difficulty,
        block_gaslimit: header.gas_limit,
        block_chain_id,
        block_base_fee: header.base_fee_per_gas->0,
        block_bloom: bloom_words(header.logs_bloom->0),
        block_gas_used: header.gas_used,
        block_random: header.mix_hash->0,
    }
}

/// The metadata of a block are, field by field, those of its header, and the rest
/// is what was given with it; the words of the filter denote its bytes.
pub proof fn law_metadata_are_those_of_the_header(
    block_number: u64,
    block_chain_id: U256,
    header: BlockHeader,
    block_beneficiary: Address,
)
    requires
        complete(header),
    ensures
        ({
            let metadata = metadata_of(block_number, block_chain_id, header, block_beneficiary);
            &&& metadata.block_beneficiary == block_beneficiary
            &&& metadata.block_chain_id == block_chain_id
            &&& metadata.block_number.value() == block_number
            &&& metadata.block_timestamp == header.timestamp
            &&& metadata.block_difficulty == header.difficulty
            &&& metadata.block_gaslimit == header.gas_limit
            &&& metadata.block_gas_used == header.gas_used
            &&& Some(metadata.block_base_fee) == header.base_fee_per_gas
            &&& Some(metadata.block_random) == header.mix_hash
            &&& metadata.block_bloom.len() == 8
            &&& forall|i: int|
                0 <= i < 8 ==> (#[trigger] metadata.block_bloom[i]).value() == be_value(
                    (header.logs_bloom->0).0@.subrange(i * 32, (i + 1) * 32),
                )
        }),
{
    lemma_word_value(block_number as nat);
    let metadata = metadata_of(block_number, block_chain_id, header, block_beneficiary);
    assert forall|i: int| 0 <= i < 8 implies (#[trigger] metadata.block_bloom[i]).value()
        == be_value((header.logs_bloom->0).0@.subrange(i * 32, (i + 1) * 32)) by {
        lemma_bytes_fit_word(bloom_chunk(header.logs_bloom->0, i));
    }
}

/// A header has metadata exactly where it names a base fee, a filter and a random
/// value; its beneficiary is its author, or the signer of its hash.
pub proof fn law_header_fields_needed(header: BlockHeader, request_miner_from_clique: bool)
    ensures
        complete(header) <==> header.base_fee_per_gas is Some && header.logs_bloom is Some
            && header.mix_hash is Some,
        request_miner_from_clique ==> {
            &&& names_beneficiary(header, request_miner_from_clique) == header.hash is Some
            &&& header.hash matches Some(hash) ==> beneficiary_of(header, request_miner_from_clique)
                == Beneficiary::SignerOf(hash)
        },
        !request_miner_from_clique ==> {
            &&& names_beneficiary(header, request_miner_from_clique) == header.author is Some
            &&& header.author matches Some(author) ==> beneficiary_of(
                header,
                request_miner_from_clique,
            ) == Beneficiary::Author(author)
        },
{
}

/// Metadata and block show what they hold.
pub proof fn law_block_values_shown(metadata: BlockMetadata, block: Block)
    ensures
        metadata@.block_beneficiary == metadata.block_beneficiary,
        metadata@.block_timestamp == metadata.block_timestamp,
        metadata@.block_number == metadata.block_number,
        metadata@.block_difficulty == metadata.block_difficulty,
        metadata@.block_gaslimit == metadata.block_gaslimit,
        metadata@.block_chain_id == metadata.block_chain_id,
        metadata@.block_base_fee == metadata.block_base_fee,
        metadata@.block_bloom == metadata.block_bloom@,
        metadata@.block_gas_used == metadata.block_gas_used,
        metadata@.block_random == metadata.block_random,
        block@.header == block.header,
        block@.transactions == block.transactions@,
{
}

/// Whether the header names what its metadata are made of.
pub fn is_complete(header: &BlockHeader) -> (yes: bool)
    ensures
        yes == complete(*header),
        yes <==> header.base_fee_per_gas is Some && header.logs_bloom is Some
            && header.mix_hash is Some,
{
    header.base_fee_per_gas.is_some() && header.logs_bloom.is_some() && header.mix_hash.is_some()
}

/// Whether the header tells where its beneficiary is found.
pub fn tells_beneficiary(header: &BlockHeader, request_miner_from_clique: bool) -> (yes: bool)
    ensures
        yes == names_beneficiary(*header, request_miner_from_clique),
        request_miner_from_clique ==> yes == header.hash is Some,
        !request_miner_from_clique ==> yes == header.author is Some,
{
    if request_miner_from_clique {
        header.hash.is_some()
    } else {
        header.author.is_some()
    }
}

/// Where the beneficiary of a block is found: with the author that it names, or,
/// where signers take turns, with the signer of its hash.
pub fn block_beneficiary(header: &BlockHeader, request_miner_from_clique: bool) -> (found: Beneficiary)
    requires
        names_beneficiary(*header, request_miner_from_clique),
    ensures
        found == beneficiary_of(*header, request_miner_from_clique),
        match found {
            Beneficiary::Author(author) => !request_miner_from_clique && header.author == Some(
                author,
            ),
            Beneficiary::SignerOf(hash) => request_miner_from_clique && header.hash == Some(hash),
        },
{
    if request_miner_from_clique {
        Beneficiary::SignerOf(header.hash.unwrap())
    } else {
        Beneficiary::Author(header.author.unwrap())
    }
}

/// Makes the metadata of a block of which the beneficiary is known, and gives
/// the state root that the block ends with.
pub fn header_metadata(
    block_number: u64,
    block_chain_id: U256,
    header: &BlockHeader,
    block_beneficiary: Address,
) -> (result: (BlockMetadata, H256))
    requires
        complete(*header),
    ensures
        result.0@ == metadata_of(block_number, block_chain_id, *header, block_beneficiary),
        result.0.block_number.value() == block_number,
        ({
            let metadata = result.0;
            &&& metadata.block_beneficiary == block_beneficiary
            &&& metadata.block_timestamp == header.timestamp
            &&& metadata.block_number.0@ == seq![block_number, 0, 0, 0]
            &&& metadata.block_difficulty == header.difficulty
            &&& metadata.block_gaslimit == header.gas_limit
            &&& metadata.block_chain_id == block_chain_id
            &&& Some(metadata.block_base_fee) == header.base_fee_per_gas
            &&& metadata.block_gas_used == header.gas_used
            &&& Some(metadata.block_random) == header.mix_hash
            &&& forall|i: int|
                0 <= i < 8 ==> (#[trigger] metadata.block_bloom@[i]).value() == be_value(
                    (header.logs_bloom->0).0@.subrange(i * 32, (i + 1) * 32),
                )
        }),
        result.1 == header.state_root,
{
    let block_number = U256::from_u64(block_number);
    proof {
        lemma_word(block_number);
    }
    (
        BlockMetadata {
            block_beneficiary,
            block_timestamp: header.timestamp,
            block_number,
            block_difficulty: header.difficulty,
            block_gaslimit: header.gas_limit,
            block_chain_id,
            block_base_fee: header.base_fee_per_gas.unwrap(),
            block_bloom: convert_bloom(header.logs_bloom.unwrap()),
            block_gas_used: header.gas_used,
            block_random: header.mix_hash.unwrap(),
        },
        header.state_root,
    )
}

/// The metadata of the block that the node reports for a number, and the state
/// root that the block ends with. Where signers take turns, `signer` is what the
/// node answered for the hash that `block_beneficiary` asks for.
pub fn get_block_metadata(
    block_number: u64,
    block_chain_id: U256,
    block: Option<Block>,
    request_miner_from_clique: bool,
    signer: Option<Address>,
) -> (result: Result<(BlockMetadata, H256), NotFound>)
    requires
        block matches Some(block) ==> complete(block.header) && names_beneficiary(
            block.header,
            request_miner_from_clique,
        ) && (request_miner_from_clique ==> signer is Some),
    ensures
        match (block, result) {
            (Some(block), Ok((metadata, state_root))) => {
                let beneficiary = if request_miner_from_clique {
                    signer->0
                } else {
                    block.header.author->0
                };
                &&& metadata@ == metadata_of(block_number, block_chain_id, block.header, beneficiary)
                &&& state_root == block.header.state_root
                &&& metadata.block_beneficiary == (if request_miner_from_clique {
                signer->0
            } else {
                block.header.author->0
            })
                &&& metadata.block_timestamp == block.header.timestamp
                &&& metadata.block_number.0@ == seq![block_number, 0, 0, 0]
                &&& metadata.block_difficulty == block.header.difficulty
                &&& metadata.block_gaslimit == block.header.gas_limit
                &&& metadata.block_chain_id == block_chain_id
                &&& Some(metadata.block_base_fee) == block.header.base_fee_per_gas
                &&& metadata.block_gas_used == block.header.gas_used
                &&& Some(metadata.block_random) == block.header.mix_hash
                &&& forall|i: int|
                0 <= i < 8 ==> (#[trigger] metadata.block_bloom@[i]).value() == be_value(
                    (block.header.logs_bloom->0).0@.subrange(i * 32, (i + 1) * 32),
                )
            },
            (None, Err(lack)) => lack == NotFound::Block(block_number),
            _ => false,
        },
{
    match block {
        Some(block) => {
            let beneficiary = match block_beneficiary(&block.header, request_miner_from_clique) {
                Beneficiary::Author(author) => author,
                Beneficiary::SignerOf(_) => signer.unwrap(),
            };
            Ok(header_metadata(block_number, block_chain_id, &block.header, beneficiary))
        },
        None => Err(NotFound::Block(block_number)),
    }
}

} // verus!
