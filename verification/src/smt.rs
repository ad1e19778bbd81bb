//! What an account leaves in the sparse Merkle tree of the state.
//!
//! The tree is taken as a map from what its leaves stand for to their values.
//! That no two leaves are filed under one hash is not part of what is stated
//! here.
use crate::primitives::{Address, U256};
use vstd::prelude::*;

verus! {

/// What a leaf of the state tree stands for. The tree files it under a hash of
/// this.
#[derive(Clone, Copy, Debug, PartialEq, Eq)]
pub enum SmtKey {
    Balance(Address),
    Nonce(Address),
    Code(Address),
    CodeLength(Address),
    Storage(Address, U256),
}

/// One assignment to a leaf of the state tree.
#[derive(Clone, Copy, Debug, PartialEq, Eq)]
pub struct SmtWrite {
    pub key: SmtKey,
    pub value: U256,
}

/// An account without its storage.
#[derive(Clone, Copy, Debug, PartialEq, Eq)]
pub struct AccountRlp {
    pub nonce: U256,
    pub balance: U256,
    pub code_length: U256,
    pub code_hash: U256,
}

impl SmtKey {
    /// The account that a leaf belongs to.
    pub open spec fn owner(self) -> Address {
        match self {
            SmtKey::Balance(addr) => addr,
            SmtKey::Nonce(addr) => addr,
            SmtKey::Code(addr) => addr,
            SmtKey::CodeLength(addr) => addr,
            SmtKey::Storage(addr, _) => addr,
        }
    }
}

/// The assignments to the storage leaves of an account.
pub open spec fn storage_writes(addr: Address, storage: Seq<(U256, U256)>) -> Seq<SmtWrite> {
    storage.map_values(
        |slot: (U256, U256)| SmtWrite { key: SmtKey::Storage(addr, slot.0), value: slot.1 },
    )
}

/// The assignments to the four leaves that every account has.
pub open spec fn identity_writes(addr: Address, account: AccountRlp) -> Seq<SmtWrite> {
    seq![
        SmtWrite { key: SmtKey::Balance(addr), value: account.balance },
        SmtWrite { key: SmtKey::Nonce(addr), value: account.nonce },
        SmtWrite { key: SmtKey::Code(addr), value: account.code_hash },
        SmtWrite { key: SmtKey::CodeLength(addr), value: account.code_length },
    ]
}

/// The assignments that an account with its storage amounts to.
pub open spec fn account_writes(
    addr: Address,
    account: AccountRlp,
    storage: Seq<(U256, U256)>,
) -> Seq<SmtWrite> {
    identity_writes(addr, account) + storage_writes(addr, storage)
}

/// The tree after an assignment: a leaf of value zero is none.
pub open spec fn after_write(tree: Map<SmtKey, U256>, write: SmtWrite) -> Map<SmtKey, U256> {
    if write.value.value() == 0 {
        tree.remove(write.key)
    } else {
        tree.insert(write.key, write.value)
    }
}

/// The tree after assignments that are made one after the other.
pub open spec fn after_writes(tree: Map<SmtKey, U256>, writes: Seq<SmtWrite>) -> Map<SmtKey, U256>
    decreases writes.len(),
{
    if writes.len() == 0 {
        tree
    } else {
        after_write(after_writes(tree, writes.drop_last()), writes.last())
    }
}

/// The value that the tree holds for a key: zero where it has no leaf.
pub open spec fn value_at(tree: Map<SmtKey, U256>, key: SmtKey) -> nat {
    if tree.contains_key(key) {
        tree[key].value()
    } else {
        0
    }
}

/// No slot stands twice among the pairs, as in the pairs of a map.
pub open spec fn distinct_slots(storage: Seq<(U256, U256)>) -> bool {
    forall|i: int, j: int|
        0 <= i < j < storage.len() ==> (#[trigger] storage[i]).0 != (#[trigger] storage[j]).0
}

/// `key` is assigned to in `writes`.
pub open spec fn assigned(writes: Seq<SmtWrite>, key: SmtKey) -> bool {
    exists|i: int| 0 <= i < writes.len() && (#[trigger] writes[i]).key == key
}

/// The assignments that file an account with its storage, the storage in the
/// order in which it is given.
pub fn set_account(addr: Address, account: &AccountRlp, storage: &Vec<(U256, U256)>) -> (writes: Vec<
    SmtWrite,
>)
    ensures
        writes@ == account_writes(addr, *account, storage@),
        writes@.len() == 4 + storage@.len(),
        writes@[0].key == SmtKey::Balance(addr) && writes@[0].value == account.balance,
        writes@[1].key == SmtKey::Nonce(addr) && writes@[1].value == account.nonce,
        writes@[2].key == SmtKey::Code(addr) && writes@[2].value == account.code_hash,
        writes@[3].key == SmtKey::CodeLength(addr) && writes@[3].value == account.code_length,
        forall|i: int|
            0 <= i < storage@.len() ==> {
                &&& writes@[i + 4].key == SmtKey::Storage(addr, (#[trigger] storage@[i]).0)
                &&& writes@[i + 4].value == storage@[i].1
            },
{
    let mut writes: Vec<SmtWrite> = Vec::new();
    writes.push(SmtWrite { key: SmtKey::Balance(addr), value: account.balance });
    writes.push(SmtWrite { key: SmtKey::Nonce(addr), value: account.nonce });
    writes.push(SmtWrite { key: SmtKey::Code(addr), value: account.code_hash });
    writes.push(SmtWrite { key: SmtKey::CodeLength(addr), value: account.code_length });
    let mut i: usize = 0;
    assert(writes@ =~= account_writes(addr, *account, storage@.take(0)));
    while i < storage.len()
        invariant
            i <= storage@.len(),
            writes@ =~= account_writes(addr, *account, storage@.take(i as int)),
        decreases storage@.len() - i,
    {
        let (slot, value) = storage[i];
        writes.push(SmtWrite { key: SmtKey::Storage(addr, slot), value });
        i = i + 1;
    }
    assert(storage@.take(i as int) =~= storage@);
    writes
}

/// Of assignments to one leaf the last counts, and zero leaves none.
pub proof fn law_last_assignment_counts(
    tree: Map<SmtKey, U256>,
    writes: Seq<SmtWrite>,
    at: int,
)
    requires
        0 <= at < writes.len(),
        forall|j: int| at < j < writes.len() ==> (#[trigger] writes[j]).key != writes[at].key,
    ensures
        after_writes(tree, writes).contains_key(writes[at].key) <==> writes[at].value.0@
            != seq![0u64, 0, 0, 0],
        after_writes(tree, writes).contains_key(writes[at].key) ==> after_writes(
            tree,
            writes,
        )[writes[at].key] == writes[at].value,
{
    lemma_assigned(tree, writes, at);
    assert(writes[at].value.value() == 0 <==> writes[at].value.0@ =~= seq![0u64, 0, 0, 0]);
}

/// What is not assigned to keeps its value.
proof fn lemma_unassigned(tree: Map<SmtKey, U256>, writes: Seq<SmtWrite>, key: SmtKey)
    requires
        !assigned(writes, key),
    ensures
        after_writes(tree, writes).contains_key(key) == tree.contains_key(key),
        tree.contains_key(key) ==> after_writes(tree, writes)[key] == tree[key],
    decreases writes.len(),
{
    if writes.len() > 0 {
        let shorter = writes.drop_last();
        if assigned(shorter, key) {
            let i = choose|i: int| 0 <= i < shorter.len() && (#[trigger] shorter[i]).key == key;
            assert(writes[i].key == key);
        }
        lemma_unassigned(tree, shorter, key);
        assert(writes[writes.len() - 1].key != key);
    }
}

/// What is assigned to last at `at` keeps the value of that assignment.
proof fn lemma_assigned(tree: Map<SmtKey, U256>, writes: Seq<SmtWrite>, at: int)
    requires
        0 <= at < writes.len(),
        forall|j: int| at < j < writes.len() ==> (#[trigger] writes[j]).key != writes[at].key,
    ensures
        after_writes(tree, writes).contains_key(writes[at].key) == (writes[at].value.value() != 0),
        writes[at].value.value() != 0 ==> after_writes(tree, writes)[writes[at].key]
            == writes[at].value,
    decreases writes.len(),
{
    if at < writes.len() - 1 {
        let shorter = writes.drop_last();
        assert(shorter[at] == writes[at]);
        assert forall|j: int| at < j < shorter.len() implies (#[trigger] shorter[j]).key
            != shorter[at].key by {
            assert(shorter[j] == writes[j]);
        }
        lemma_assigned(tree, shorter, at);
        assert(writes[writes.len() - 1].key != writes[at].key);
    }
}

/// The assignments of an account with distinct slots are to distinct leaves.
proof fn lemma_distinct_keys(addr: Address, account: AccountRlp, storage: Seq<(U256, U256)>)
    requires
        distinct_slots(storage),
    ensures
        ({
            let writes = account_writes(addr, account, storage);
            forall|i: int, j: int|
                0 <= i < j < writes.len() ==> (#[trigger] writes[i]).key != (
                #[trigger] writes[j]).key
        }),
{
    let writes = account_writes(addr, account, storage);
    assert forall|i: int, j: int| 0 <= i < j < writes.len() implies (#[trigger] writes[i]).key != (
    #[trigger] writes[j]).key by {
        if i >= 4 {
            assert(writes[i].key == SmtKey::Storage(addr, storage[i - 4].0));
            assert(writes[j].key == SmtKey::Storage(addr, storage[j - 4].0));
        } else if j >= 4 {
            assert(writes[j].key == SmtKey::Storage(addr, storage[j - 4].0));
        }
    }
}

/// A filed account is read back: each of its leaves holds what was filed.
pub proof fn law_account_read_back(
    tree: Map<SmtKey, U256>,
    addr: Address,
    account: AccountRlp,
    storage: Seq<(U256, U256)>,
)
    requires
        distinct_slots(storage),
    ensures
        ({
            let after = after_writes(tree, account_writes(addr, account, storage));
            &&& value_at(after, SmtKey::Balance(addr)) == account.balance.value()
            &&& value_at(after, SmtKey::Nonce(addr)) == account.nonce.value()
            &&& value_at(after, SmtKey::Code(addr)) == account.code_hash.value()
            &&& value_at(after, SmtKey::CodeLength(addr)) == account.code_length.value()
            &&& forall|i: int|
                0 <= i < storage.len() ==> value_at(
                    after,
                    SmtKey::Storage(addr, (#[trigger] storage[i]).0),
                ) == storage[i].1.value()
        }),
{
    let writes = account_writes(addr, account, storage);
    lemma_distinct_keys(addr, account, storage);
    lemma_assigned(tree, writes, 0);
    lemma_assigned(tree, writes, 1);
    lemma_assigned(tree, writes, 2);
    lemma_assigned(tree, writes, 3);
    assert forall|i: int| 0 <= i < storage.len() implies value_at(
        after_writes(tree, writes),
        SmtKey::Storage(addr, (#[trigger] storage[i]).0),
    ) == storage[i].1.value() by {
        assert(writes[i + 4] == SmtWrite {
            key: SmtKey::Storage(addr, storage[i].0),
            value: storage[i].1,
        });
        lemma_assigned(tree, writes, i + 4);
    }
}

/// Filing an account changes no leaf of another account, and no storage leaf
/// that is not among the filed slots.
pub proof fn law_other_leaves_untouched(
    tree: Map<SmtKey, U256>,
    addr: Address,
    account: AccountRlp,
    storage: Seq<(U256, U256)>,
    key: SmtKey,
)
    requires
        key.owner() != addr || (key is Storage && forall|i: int|
            0 <= i < storage.len() ==> (#[trigger] storage[i]).0 != key->Storage_1),
    ensures
        ({
            let after = after_writes(tree, account_writes(addr, account, storage));
            &&& after.contains_key(key) == tree.contains_key(key)
            &&& tree.contains_key(key) ==> after[key] == tree[key]
        }),
{
    let writes = account_writes(addr, account, storage);
    if assigned(writes, key) {
        let i = choose|i: int| 0 <= i < writes.len() && (#[trigger] writes[i]).key == key;
        if i >= 4 {
            assert(writes[i].key == SmtKey::Storage(addr, storage[i - 4].0));
        }
        assert(false);
    }
    lemma_unassigned(tree, writes, key);
}

/// The order in which the slots are walked leaves no trace in the tree.
pub proof fn law_storage_order_irrelevant(
    tree: Map<SmtKey, U256>,
    addr: Address,
    account: AccountRlp,
    storage: Seq<(U256, U256)>,
    reordered: Seq<(U256, U256)>,
)
    requires
        distinct_slots(storage),
        distinct_slots(reordered),
        forall|slot: (U256, U256)| storage.contains(slot) <==> reordered.contains(slot),
    ensures
        after_writes(tree, account_writes(addr, account, storage)) == after_writes(
            tree,
            account_writes(addr, account, reordered),
        ),
{
    let a = after_writes(tree, account_writes(addr, account, storage));
    let b = after_writes(tree, account_writes(addr, account, reordered));
    assert forall|key: SmtKey| #[trigger] a.contains_key(key) <==> b.contains_key(key) by {
        lemma_same_leaf(tree, addr, account, storage, reordered, key);
    }
    assert forall|key: SmtKey| a.contains_key(key) implies a[key] == b[key] by {
        lemma_same_leaf(tree, addr, account, storage, reordered, key);
    }
    assert(a =~= b);
}

/// One leaf after filing the same account, its slots walked in two orders.
proof fn lemma_same_leaf(
    tree: Map<SmtKey, U256>,
    addr: Address,
    account: AccountRlp,
    storage: Seq<(U256, U256)>,
    reordered: Seq<(U256, U256)>,
    key: SmtKey,
)
    requires
        distinct_slots(storage),
        distinct_slots(reordered),
        forall|slot: (U256, U256)| storage.contains(slot) <==> reordered.contains(slot),
    ensures
        ({
            let a = after_writes(tree, account_writes(addr, account, storage));
            let b = after_writes(tree, account_writes(addr, account, reordered));
            &&& a.contains_key(key) == b.contains_key(key)
            &&& a.contains_key(key) ==> a[key] == b[key]
        }),
{
    let wa = account_writes(addr, account, storage);
    let wb = account_writes(addr, account, reordered);
    lemma_distinct_keys(addr, account, storage);
    lemma_distinct_keys(addr, account, reordered);
    if assigned(wa, key) {
        let i = choose|i: int| 0 <= i < wa.len() && (#[trigger] wa[i]).key == key;
        lemma_assigned(tree, wa, i);
        if i < 4 {
            assert(wb[i] == wa[i]);
            lemma_assigned(tree, wb, i);
        } else {
            let slot = storage[i - 4];
            assert(wa[i] == SmtWrite { key: SmtKey::Storage(addr, slot.0), value: slot.1 });
            assert(storage.contains(slot));
            let j = choose|j: int| 0 <= j < reordered.len() && reordered[j] == slot;
            assert(wb[j + 4] == wa[i]);
            lemma_assigned(tree, wb, j + 4);
        }
    } else {
        lemma_unassigned(tree, wa, key);
        if assigned(wb, key) {
            let j = choose|j: int| 0 <= j < wb.len() && (#[trigger] wb[j]).key == key;
            if j < 4 {
                assert(wa[j] == wb[j]);
            } else {
                let slot = reordered[j - 4];
                assert(wb[j] == SmtWrite { key: SmtKey::Storage(addr, slot.0), value: slot.1 });
                assert(reordered.contains(slot));
                let i = choose|i: int| 0 <= i < storage.len() && storage[i] == slot;
                assert(wa[i + 4] == wb[j]);
            }
            assert(false);
        }
        lemma_unassigned(tree, wb, key);
    }
}

} // verus!
