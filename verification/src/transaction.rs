//! Signed transactions and their encoding.
use crate::primitives::{Address, H256, U256};
use ethers::types::transaction::eip2930::{AccessList, AccessListItem};
use vstd::prelude::*;

verus! {

/// An account, and slots of its storage, that a transaction announces to touch.
#[derive(Debug, PartialEq, Eq)]
pub struct AccessItem {
    pub address: Address,
    pub storage_keys: Vec<H256>,
}

/// What an access list announces, account by account.
pub open spec fn items_view(items: Seq<AccessItem>) -> Seq<(Address, Seq<H256>)> {
    items.map_values(|item: AccessItem| (item.address, item.storage_keys@))
}

/// A signed transaction.
#[derive(Debug, PartialEq, Eq)]
pub struct SignedTransaction {
    pub transaction_type: Option<u64>,
    pub chain_id: Option<U256>,
    pub nonce: U256,
    pub gas_price: Option<U256>,
    pub max_priority_fee_per_gas: Option<U256>,
    pub max_fee_per_gas: Option<U256>,
    pub gas: U256,
    pub to: Option<Address>,
    pub value: U256,
    pub input: Vec<u8>,
    pub access_list: Option<Vec<AccessItem>>,
    pub v: u64,
    pub r: U256,
    pub s: U256,
}

/// What a signed transaction holds.
pub struct SignedTransactionView {
    pub transaction_type: Option<u64>,
    pub chain_id: Option<U256>,
    pub nonce: U256,
    pub gas_price: Option<U256>,
    pub max_priority_fee_per_gas: Option<U256>,
    pub max_fee_per_gas: Option<U256>,
    pub gas: U256,
    pub to: Option<Address>,
    pub value: U256,
    pub input: Seq<u8>,
    pub access_list: Option<Seq<(Address, Seq<H256>)>>,
    pub v: u64,
    pub r: U256,
    pub s: U256,
}

impl View for SignedTransaction {
    type V = SignedTransactionView;

    open spec fn view(&self) -> SignedTransactionView {
        SignedTransactionView {
            transaction_type: self.transaction_type,
            chain_id: self.chain_id,
            nonce: self.nonce,
            gas_price: self.gas_price,
            max_priority_fee_per_gas: self.max_priority_fee_per_gas,
            max_fee_per_gas: self.max_fee_per_gas,
            gas: self.gas,
            to: self.to,
            value: self.value,
            input: self.input@,
            access_list: match self.access_list {
                Some(items) => Some(items_view(items@)),
                None => None,
            },
            v: self.v,
            r: self.r,
            s: self.s,
        }
    }
}

/// A transaction as the node reports it: the signed part, and where it stands
/// on the chain, once it stands there.
#[derive(Debug, PartialEq, Eq)]
pub struct Transaction {
    pub hash: H256,
    pub block_number: Option<u64>,
    pub transaction_index: Option<u64>,
    pub signed: SignedTransaction,
}

/// What a reported transaction holds.
pub struct TransactionView {
    pub hash: H256,
    pub block_number: Option<u64>,
    pub transaction_index: Option<u64>,
    pub signed: SignedTransactionView,
}

impl View for Transaction {
    type V = TransactionView;

    open spec fn view(&self) -> TransactionView {
        TransactionView {
            hash: self.hash,
            block_number: self.block_number,
            transaction_index: self.transaction_index,
            signed: self.signed@,
        }
    }
}

/// An access list in the form of `ethers`.
#[verifier::external_type_specification]
#[verifier::external_body]
pub struct ExAccessList(AccessList);

/// What an access list of `ethers` holds.
pub uninterp spec fn access_items(list: AccessList) -> Seq<(Address, Seq<H256>)>;

/// Builds an `ethers` `AccessList`, with its tuple constructor.
///
/// Trusted: the list holds the given items, in the given order.
#[verifier::external_body]
fn access_list(items: &Vec<AccessItem>) -> (list: AccessList)
    ensures
        access_items(list) == items_view(items@),
{
    AccessList(
        items.iter().map(
            |item| AccessListItem {
                address: ethers::types::H160(item.address.0),
                storage_keys: item.storage_keys.iter().map(|k| ethers::types::H256(k.0)).collect(),
            },
        ).collect(),
    )
}

/// A transaction of a type that carries a chain id next to its signature.
pub open spec fn is_typed(txn: SignedTransactionView) -> bool {
    txn.transaction_type == Some(1u64) || txn.transaction_type == Some(2u64)
}

/// The signature of a typed transaction can be brought to its parity: it is a
/// parity already, or it is one shifted by twice the chain id and 35.
pub open spec fn encodable(txn: SignedTransactionView) -> bool {
    is_typed(txn) && txn.chain_id is Some ==> {
        &&& txn.chain_id->0.value() <= u64::MAX
        &&& txn.v <= 1 || txn.v >= 2 * txn.chain_id->0.value() + 35
    }
}

/// The RLP form of a signed transaction, with its type byte in front where it
/// has one.
pub uninterp spec fn transaction_rlp(txn: SignedTransactionView) -> Seq<u8>;

/// Calls `ethers::types::Transaction::rlp` on the transaction with the given
/// fields, its access list being `list`.
///
/// Trusted: the bytes depend on the fields alone. The call casts the chain id of
/// a typed transaction to 64 bits and subtracts it from the signature, which the
/// precondition keeps in range.
#[verifier::external_body]
fn rlp(txn: &SignedTransaction, list: Option<AccessList>) -> (bytes: Vec<u8>)
    requires
        encodable(txn@),
        match list {
            Some(list) => txn@.access_list == Some(access_items(list)),
            None => txn@.access_list is None,
        },
    ensures
        bytes@ == transaction_rlp(txn@),
{
    let word = |w: U256| ethers::types::U256(w.0);
    ethers::types::Transaction {
        transaction_type: txn.transaction_type.map(Into::into), chain_id: txn.chain_id.map(word),
        nonce: word(txn.nonce), gas_price: txn.gas_price.map(word),
        max_priority_fee_per_gas: txn.max_priority_fee_per_gas.map(word),
        max_fee_per_gas: txn.max_fee_per_gas.map(word), gas: word(txn.gas),
        to: txn.to.map(|a| ethers::types::H160(a.0)), value: word(txn.value),
        input: txn.input.clone().into(), access_list: list, v: txn.v.into(),
        r: word(txn.r), s: word(txn.s), ..Default::default()
    }.rlp().to_vec()
}

/// Every transaction can be encoded but a typed one with a chain id, whose
/// signature must then be a parity, or one shifted by the chain id.
pub proof fn law_what_can_be_encoded(txn: SignedTransactionView, parity: u64)
    requires
        parity <= 1,
    ensures
        txn.transaction_type != Some(1u64) && txn.transaction_type != Some(2u64) ==> encodable(txn),
        txn.chain_id is None ==> encodable(txn),
        txn.chain_id matches Some(id) ==> id.value() <= u64::MAX && (txn.v == parity || txn.v
            == parity + 35 + 2 * id.value()) ==> encodable(txn),
{
}

/// A signed transaction shows what it holds, field by field and slot by slot.
pub proof fn law_transaction_shown(txn: SignedTransaction)
    ensures
        txn@.transaction_type == txn.transaction_type,
        txn@.chain_id == txn.chain_id,
        txn@.nonce == txn.nonce,
        txn@.gas_price == txn.gas_price,
        txn@.max_priority_fee_per_gas == txn.max_priority_fee_per_gas,
        txn@.max_fee_per_gas == txn.max_fee_per_gas,
        txn@.gas == txn.gas,
        txn@.to == txn.to,
        txn@.value == txn.value,
        txn@.input == txn.input@,
        txn@.v == txn.v,
        txn@.r == txn.r,
        txn@.s == txn.s,
        txn@.access_list is Some <==> txn.access_list is Some,
        txn.access_list matches Some(items) ==> {
            &&& txn@.access_list->0.len() == items@.len()
            &&& forall|i: int|
                0 <= i < items@.len() ==> (#[trigger] txn@.access_list->0[i]) == (
                    items@[i].address,
                    items@[i].storage_keys@,
                )
        },
{
}

/// Whether the signature of a transaction can be encoded.
pub fn can_encode(txn: &SignedTransaction) -> (possible: bool)
    ensures
        possible == encodable(txn@),
        possible <==> {
            ||| txn.transaction_type != Some(1u64) && txn.transaction_type != Some(2u64)
            ||| txn.chain_id is None
            ||| txn.chain_id->0.value() <= u64::MAX && (txn.v <= 1 || txn.v >= 35 + 2
                * txn.chain_id->0.value())
        },
{
    match (txn.transaction_type, txn.chain_id) {
        (Some(kind), Some(id)) => {
            if kind != 1 && kind != 2 {
                return true;
            }
            if id.0[1] != 0 || id.0[2] != 0 || id.0[3] != 0 {
                return false;
            }
            txn.v <= 1 || (txn.v >= 35 && (txn.v - 35) / 2 >= id.0[0])
        },
        _ => true,
    }
}

/// Encodes a signed transaction.
pub fn encode_transaction(txn: &SignedTransaction) -> (bytes: Vec<u8>)
    requires
        encodable(txn@),
    ensures
        bytes@ == transaction_rlp(txn@),
{
    let list = match &txn.access_list {
        Some(items) => Some(access_list(items)),
        None => None,
    };
    rlp(txn, list)
}

} // verus!
