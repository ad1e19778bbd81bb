//! Partial tries: the empty trie, and the trie of which only the root hash is
//! known.
use crate::primitives::{TrieRootHash, H256};
use mpt_trie::nibbles::Nibbles;
use mpt_trie::partial_trie::{HashedPartialTrie, Node, PartialTrie};
use mpt_trie::trie_ops::TrieOpError;
use vstd::prelude::*;

verus! {

/// A partial trie of `mpt_trie`, which keeps the hashes of its nodes.
#[verifier::external_type_specification]
#[verifier::external_body]
pub struct ExHashedPartialTrie(HashedPartialTrie);

/// The error of `mpt_trie`'s operations on tries.
#[verifier::external_type_specification]
#[verifier::external_body]
pub struct ExTrieOpError(TrieOpError);

/// A node of a partial trie that is not empty.
pub enum TrieNode {
    /// A subtrie of which only the hash is known.
    Hash(H256),
    /// Sixteen subtries and a value.
    Branch(Seq<u8>),
    /// A shared stretch of nibbles.
    Extension(Seq<u8>),
    /// The last nibbles of a key, and its value.
    Leaf(Seq<u8>, Seq<u8>),
}

/// The nodes of the empty trie.
pub open spec fn no_nodes() -> Map<Seq<u8>, TrieNode> {
    Map::empty()
}

/// The nodes of a trie of which only the root hash is known.
pub open spec fn only_root(h: TrieRootHash) -> Map<Seq<u8>, TrieNode> {
    map![Seq::<u8>::empty() => TrieNode::Hash(h)]
}

/// The nodes of a partial trie that are not empty, by the nibbles that lead to
/// them.
pub uninterp spec fn trie_nodes(trie: HashedPartialTrie) -> Map<Seq<u8>, TrieNode>;

/// Calls `HashedPartialTrie::default`.
///
/// Trusted: the trie has no node.
#[verifier::external_body]
fn default_trie() -> (trie: HashedPartialTrie)
    ensures
        trie_nodes(trie) == no_nodes(),
{
    HashedPartialTrie::default()
}

/// Calls `HashedPartialTrie::from` on `Node::Empty`.
///
/// Trusted: the trie has no node.
#[verifier::external_body]
fn trie_from_empty_node() -> (trie: HashedPartialTrie)
    ensures
        trie_nodes(trie) == no_nodes(),
{
    HashedPartialTrie::from(Node::Empty)
}

/// Calls `HashedPartialTrie::insert` with the empty key and a hash.
///
/// Trusted: in a trie without nodes this succeeds and makes the root a node that
/// holds the hash.
#[verifier::external_body]
fn insert_root_hash(trie: &mut HashedPartialTrie, h: TrieRootHash) -> (done: Result<
    (),
    TrieOpError,
>)
    requires
        trie_nodes(*old(trie)) == no_nodes(),
    ensures
        done is Ok,
        trie_nodes(*final(trie)) == only_root(h),
{
    trie.insert(Nibbles::default(), ethers::types::H256(h.0))
}

/// Calls `HashedPartialTrie::clone`.
///
/// Trusted: the copy has the same nodes.
#[verifier::external_body]
fn clone_trie(trie: &HashedPartialTrie) -> (copy: HashedPartialTrie)
    ensures
        trie_nodes(copy) == trie_nodes(*trie),
{
    trie.clone()
}

/// The trie without nodes.
pub fn empty_trie() -> (trie: HashedPartialTrie)
    ensures
        trie_nodes(trie) == no_nodes(),
        forall|path: Seq<u8>| !trie_nodes(trie).contains_key(path),
{
    trie_from_empty_node()
}

/// The trie that consists of a root of which only the hash is known.
pub fn create_fully_hashed_out_trie_from_hash(h: TrieRootHash) -> (trie: HashedPartialTrie)
    ensures
        trie_nodes(trie) == only_root(h),
        forall|path: Seq<u8>|
            trie_nodes(trie).contains_key(path) <==> path == Seq::<u8>::empty(),
        trie_nodes(trie)[Seq::<u8>::empty()] == TrieNode::Hash(h),
{
    let mut trie = default_trie();
    let done = insert_root_hash(&mut trie, h);
    done.unwrap();
    trie
}

/// The state of all tries while transactions are processed.
#[derive(Debug)]
pub struct PartialTrieState {
    pub state: HashedPartialTrie,
    pub txn: HashedPartialTrie,
    pub receipt: HashedPartialTrie,
}

impl Default for PartialTrieState {
    /// Three tries without nodes.
    fn default() -> (tries: Self)
        ensures
            trie_nodes(tries.state) == no_nodes(),
            trie_nodes(tries.txn) == no_nodes(),
            trie_nodes(tries.receipt) == no_nodes(),
    {
        PartialTrieState { state: default_trie(), txn: default_trie(), receipt: default_trie() }
    }
}

impl Clone for PartialTrieState {
    /// Three tries with the same nodes.
    fn clone(&self) -> (copy: Self)
        ensures
            trie_nodes(copy.state) == trie_nodes(self.state),
            trie_nodes(copy.txn) == trie_nodes(self.txn),
            trie_nodes(copy.receipt) == trie_nodes(self.receipt),
    {
        PartialTrieState {
            state: clone_trie(&self.state),
            txn: clone_trie(&self.txn),
            receipt: clone_trie(&self.receipt),
        }
    }
}

/// Only tries of one root hash have the same nodes.
pub proof fn law_hashed_out_tries_differ(
    a: HashedPartialTrie,
    b: HashedPartialTrie,
    root_of_a: TrieRootHash,
    root_of_b: TrieRootHash,
)
    requires
        trie_nodes(a) == only_root(root_of_a),
        trie_nodes(b) == only_root(root_of_b),
    ensures
        trie_nodes(a) == trie_nodes(b) <==> root_of_a == root_of_b,
{
    assert(trie_nodes(a)[Seq::<u8>::empty()] == TrieNode::Hash(root_of_a));
    assert(trie_nodes(b)[Seq::<u8>::empty()] == TrieNode::Hash(root_of_b));
}

} // verus!
