//! The accounts that transactions touch, and the state that their traces add up
//! to.
use crate::primitives::{Address, Ranked, H256, U256};
use crate::sorted_map::{
    ascending, collected, has_key, law_listing_in_order, lemma_ascending_lists_collected,
    lemma_lists_determines, listing, lists, Duplicate, SortedMap,
};
use vstd::prelude::*;

verus! {

/// What a trace tells of an account.
#[derive(Debug, PartialEq)]
pub struct AccountState {
    pub balance: Option<U256>,
    pub code: Option<String>,
    pub nonce: Option<U256>,
    pub storage: Option<SortedMap<H256, H256>>,
}

/// What a trace tells of an account, with the storage as a mathematical map.
pub struct AccountStateView {
    pub balance: Option<U256>,
    pub code: Option<Seq<char>>,
    pub nonce: Option<U256>,
    pub storage: Option<Map<H256, H256>>,
}

impl View for AccountState {
    type V = AccountStateView;

    open spec fn view(&self) -> AccountStateView {
        AccountStateView {
            balance: self.balance,
            code: match self.code {
                Some(code) => Some(code@),
                None => None,
            },
            nonce: self.nonce,
            storage: match self.storage {
                Some(storage) => Some(storage@),
                None => None,
            },
        }
    }
}

/// Accounts by address.
pub type Accounts = SortedMap<Address, AccountState>;

/// Accounts by address, as a mathematical map.
pub type AccountsView = Map<Address, AccountStateView>;

impl Duplicate for AccountState {
    fn duplicate(&self) -> (copy: Self) {
        AccountState {
            balance: self.balance,
            code: match &self.code {
                Some(code) => Some(code.clone()),
                None => None,
            },
            nonce: self.nonce,
            storage: match &self.storage {
                Some(storage) => Some(storage.duplicate()),
                None => None,
            },
        }
    }
}

impl AccountStateView {
    /// The slots that the account is known to have.
    pub open spec fn slots(self) -> Map<H256, H256> {
        match self.storage {
            Some(storage) => storage,
            None => Map::empty(),
        }
    }
}

/// What is known of a slot of an account.
pub open spec fn slot_of(account: AccountStateView, slot: H256) -> Option<H256> {
    match account.storage {
        Some(storage) => if storage.contains_key(slot) {
            Some(storage[slot])
        } else {
            None
        },
        None => None,
    }
}

/// A known account after another sighting: only its storage takes part, where
/// the later value of a slot counts, and an account without slots has none.
pub open spec fn merged(known: AccountStateView, seen: AccountStateView) -> AccountStateView {
    let slots = known.slots().union_prefer_right(seen.slots());
    AccountStateView {
        storage: if slots == Map::<H256, H256>::empty() {
            None
        } else {
            Some(slots)
        },
        ..known
    }
}

/// The state after an account was seen.
pub open spec fn with_account(
    state: AccountsView,
    address: Address,
    seen: AccountStateView,
) -> AccountsView {
    if state.contains_key(address) {
        state.insert(address, merged(state[address], seen))
    } else {
        state.insert(address, seen)
    }
}

/// The state after a trace: what is new is taken over, what is known is merged.
pub open spec fn with_trace(state: AccountsView, trace: AccountsView) -> AccountsView {
    Map::new(
        |address: Address| state.contains_key(address) || trace.contains_key(address),
        |address: Address|
            if !trace.contains_key(address) {
                state[address]
            } else if !state.contains_key(address) {
                trace[address]
            } else {
                merged(state[address], trace[address])
            },
    )
}

/// The state that a sequence of traces adds up to.
pub open spec fn state_after(traces: Seq<AccountsView>) -> AccountsView
    decreases traces.len(),
{
    if traces.len() == 0 {
        Map::empty()
    } else {
        with_trace(state_after(traces.drop_last()), traces.last())
    }
}

/// The addresses of accounts, in ascending order.
pub open spec fn addresses_of(accounts: AccountsView) -> Seq<Address> {
    listing(accounts).map_values(|entry: (Address, AccountStateView)| entry.0)
}

/// The addresses of a sequence of traces, trace by trace.
pub open spec fn addresses_in(traces: Seq<AccountsView>) -> Seq<Address>
    decreases traces.len(),
{
    if traces.len() == 0 {
        Seq::empty()
    } else {
        addresses_in(traces.drop_last()) + addresses_of(traces.last())
    }
}

/// Merges another sighting of an account into what is known of it.
pub fn merge_account(known: &AccountState, seen: &AccountState) -> (account: AccountState)
    ensures
        account@ == merged(known@, seen@),
        account.balance == known.balance,
        account.nonce == known.nonce,
        account@.code == known@.code,
        forall|slot: H256| #[trigger]
            slot_of(account@, slot) == if slot_of(seen@, slot) is Some {
                slot_of(seen@, slot)
            } else {
                slot_of(known@, slot)
            },
        account.storage is Some <==> exists|slot: H256| slot_of(account@, slot) is Some,
        account@.storage matches Some(storage) ==> forall|slot: H256|
            #![trigger storage.contains_key(slot)]
            {
                &&& storage.contains_key(slot) <==> (known@.storage is Some
                    && known@.storage->0.contains_key(slot)) || (seen@.storage is Some
                    && seen@.storage->0.contains_key(slot))
                &&& seen@.storage is Some && seen@.storage->0.contains_key(slot) ==> storage[slot]
                    == seen@.storage->0[slot]
                &&& storage.contains_key(slot) && !(seen@.storage is Some
                    && seen@.storage->0.contains_key(slot)) ==> storage[slot]
                    == known@.storage->0[slot]
            },
        account@.storage is None <==> (forall|slot: H256|
            !(known@.storage is Some && #[trigger] known@.storage->0.contains_key(slot))) && (forall|slot: H256|
            !(seen@.storage is Some && #[trigger] seen@.storage->0.contains_key(slot))),
{
    proof {
        law_merge_takes_slots_only(known@, seen@);
    }

    let mut slots = match &known.storage {
        Some(storage) => storage.duplicate(),
        None => SortedMap::new(),
    };
    assert(slots@ == known@.slots());
    match &seen.storage {
        Some(storage) => {
            let count = storage.len();
            let ghost entries = listing(storage@);
            let mut i: usize = 0;
            assert(slots@ =~= known@.slots().union_prefer_right(collected(entries.take(0))));
            while i < count
                invariant
                    i <= count,
                    count == entries.len(),
                    entries == listing(storage@),
                    slots@ == known@.slots().union_prefer_right(collected(entries.take(i as int))),
                decreases count - i,
            {
                let (slot, value) = storage.entry(i);
                slots.insert(slot, *value);
                proof {
                    assert(entries.take(i + 1).drop_last() =~= entries.take(i as int));
                    assert(slots@ =~= known@.slots().union_prefer_right(
                        collected(entries.take(i + 1)),
                    ));
                }
                i = i + 1;
            }
            proof {
                assert(entries.take(count as int) =~= entries);
                lemma_ascending_lists_collected(entries);
                lemma_lists_determines(entries, collected(entries), storage@);
            }
        },
        None => {
            assert(slots@ =~= known@.slots().union_prefer_right(seen@.slots()));
        },
    }
    let storage = if slots.is_empty() {
        None
    } else {
        Some(slots)
    };
    AccountState {
        balance: known.balance,
        code: match &known.code {
            Some(code) => Some(code.clone()),
            None => None,
        },
        nonce: known.nonce,
        storage,
    }
}

/// Adds an account that was seen to the state.
pub fn add_account(state: &mut Accounts, address: Address, seen: AccountState)
    ensures
        final(state)@ == with_account(old(state)@, address, seen@),
        final(state)@.contains_key(address),
        forall|other: Address|
            other != address ==> {
                &&& (#[trigger] final(state)@.contains_key(other)) == old(state)@.contains_key(other)
                &&& old(state)@.contains_key(other) ==> final(state)@[other] == old(state)@[other]
            },
        !old(state)@.contains_key(address) ==> final(state)@[address] == seen@,
{
    let account = match state.get(&address) {
        Some(known) => merge_account(known, &seen),
        None => seen,
    };
    state.insert(address, account);
}

/// Seeing one more account, of a new address, extends a trace by it.
proof fn lemma_trace_extends(
    state: AccountsView,
    trace: AccountsView,
    address: Address,
    seen: AccountStateView,
)
    requires
        !trace.contains_key(address),
    ensures
        with_account(with_trace(state, trace), address, seen) == with_trace(
            state,
            trace.insert(address, seen),
        ),
{
    assert(with_account(with_trace(state, trace), address, seen) =~= with_trace(
        state,
        trace.insert(address, seen),
    ));
}

/// Adds the accounts of a trace to the state, and their addresses, in ascending
/// order, to those that were seen.
pub fn add_trace(state: &mut Accounts, addresses: &mut Vec<Address>, trace: &Accounts)
    ensures
        final(state)@ == with_trace(old(state)@, trace@),
        final(addresses)@ == old(addresses)@ + addresses_of(trace@),
        forall|address: Address| #[trigger]
            final(state)@.contains_key(address) <==> old(state)@.contains_key(address)
                || trace@.contains_key(address),
        forall|address: Address|
            old(state)@.contains_key(address) && !trace@.contains_key(address) ==> (
            #[trigger] final(state)@[address]) == old(state)@[address],
        forall|address: Address|
            !old(state)@.contains_key(address) && trace@.contains_key(address) ==> (
            #[trigger] final(state)@[address]) == trace@[address],
{
    let count = trace.len();
    let ghost entries = listing(trace@);
    let ghost keys = addresses_of(trace@);
    let ghost before = state@;
    let ghost seen_before = addresses@;
    let mut i: usize = 0;
    proof {
        assert(with_trace(before, collected(entries.take(0))) =~= before);
        assert(seen_before + keys.take(0) =~= seen_before);
    }
    while i < count
        invariant
            i <= count,
            count == entries.len(),
            entries == listing(trace@),
            keys == addresses_of(trace@),
            lists(entries, trace@),
            state@ == with_trace(before, collected(entries.take(i as int))),
            addresses@ == seen_before + keys.take(i as int),
        decreases count - i,
    {
        let (address, account) = trace.entry(i);
        addresses.push(address);
        add_account(state, address, account.duplicate());
        proof {
            let shorter = entries.take(i as int);
            assert(entries.take(i + 1).drop_last() =~= shorter);
            assert(ascending(shorter)) by {
                assert forall|m: int, n: int| 0 <= m < n < shorter.len() implies (
                #[trigger] shorter[m]).0.rank() < (#[trigger] shorter[n]).0.rank() by {
                    assert(entries[m].0.rank() < entries[n].0.rank());
                }
            }
            lemma_ascending_lists_collected(shorter);
            if collected(shorter).contains_key(address) {
                assert(has_key(shorter, address));
                let m = choose|m: int| 0 <= m < shorter.len() && (#[trigger] shorter[m]).0 == address;
                assert(entries[m].0.rank() < entries[i as int].0.rank());
            }
            lemma_trace_extends(before, collected(shorter), address, account@);
            assert(addresses@ =~= seen_before + keys.take(i + 1));
        }
        i = i + 1;
    }
    proof {
        assert(entries.take(count as int) =~= entries);
        assert(keys.take(count as int) =~= keys);
        lemma_ascending_lists_collected(entries);
        lemma_lists_determines(entries, collected(entries), trace@);
    }
}

/// A known account keeps its balance, code and nonce at another sighting; each slot
/// has the value of the sighting where that gives one, and else the value that was
/// known; and there is storage exactly where there is a slot.
pub proof fn law_merge_takes_slots_only(known: AccountStateView, seen: AccountStateView)
    ensures
        merged(known, seen).balance == known.balance,
        merged(known, seen).code == known.code,
        merged(known, seen).nonce == known.nonce,
        forall|slot: H256| #[trigger]
            slot_of(merged(known, seen), slot) == if slot_of(seen, slot) is Some {
                slot_of(seen, slot)
            } else {
                slot_of(known, slot)
            },
        merged(known, seen).storage is Some <==> exists|slot: H256|
            slot_of(merged(known, seen), slot) is Some,
        merged(known, seen).storage matches Some(storage) ==> forall|slot: H256|
            #![trigger storage.contains_key(slot)]
            {
                &&& storage.contains_key(slot) <==> (known.storage is Some
                    && known.storage->0.contains_key(slot)) || (seen.storage is Some
                    && seen.storage->0.contains_key(slot))
                &&& seen.storage is Some && seen.storage->0.contains_key(slot) ==> storage[slot]
                    == seen.storage->0[slot]
                &&& storage.contains_key(slot) && !(seen.storage is Some
                    && seen.storage->0.contains_key(slot)) ==> storage[slot]
                    == known.storage->0[slot]
            },
        merged(known, seen).storage is None <==> (forall|slot: H256|
            !(known.storage is Some && #[trigger] known.storage->0.contains_key(slot))) && (forall|slot: H256|
            !(seen.storage is Some && #[trigger] seen.storage->0.contains_key(slot))),
{
    lemma_merged_slots(known, seen);
    let account = merged(known, seen);
    if account.storage is Some {
        let slots = account.storage->0;
        if forall|slot: H256| slot_of(account, slot) is None {
            assert forall|slot: H256| !(#[trigger] slots.contains_key(slot)) by {
                assert(slot_of(account, slot) is None);
            }
            assert(slots =~= Map::<H256, H256>::empty());
        }
        let slot = choose|slot: H256| slot_of(account, slot) is Some;
        assert(slots.contains_key(slot));
        assert((known.storage is Some && known.storage->0.contains_key(slot)) || (seen.storage is Some
            && seen.storage->0.contains_key(slot)));
    } else {
        let slots = known.slots().union_prefer_right(seen.slots());
        assert forall|slot: H256| slot_of(known, slot) is None && slot_of(seen, slot) is None by {
            assert(!slots.contains_key(slot));
        }
        assert forall|slot: H256|
            !(known.storage is Some && #[trigger] known.storage->0.contains_key(slot)) by {
            assert(slot_of(known, slot) is None);
        }
        assert forall|slot: H256|
            !(seen.storage is Some && #[trigger] seen.storage->0.contains_key(slot)) by {
            assert(slot_of(seen, slot) is None);
        }
    }
}

/// A trace leaves the accounts that it does not see as they were, and takes over
/// those that it sees first.
pub proof fn law_trace_touches_only_what_it_sees(
    state: AccountsView,
    trace: AccountsView,
    address: Address,
)
    ensures
        with_trace(state, trace).contains_key(address) <==> state.contains_key(address)
            || trace.contains_key(address),
        state.contains_key(address) && !trace.contains_key(address) ==> with_trace(
            state,
            trace,
        )[address] == state[address],
        !state.contains_key(address) && trace.contains_key(address) ==> with_trace(
            state,
            trace,
        )[address] == trace[address],
        state.contains_key(address) && trace.contains_key(address) ==> {
            let account = with_trace(state, trace)[address];
            &&& account.balance == state[address].balance
            &&& account.code == state[address].code
            &&& account.nonce == state[address].nonce
            &&& forall|slot: H256| #[trigger]
                slot_of(account, slot) == if slot_of(trace[address], slot) is Some {
                    slot_of(trace[address], slot)
                } else {
                    slot_of(state[address], slot)
                }
        },
{
    if state.contains_key(address) && trace.contains_key(address) {
        law_merge_takes_slots_only(state[address], trace[address]);
    }
}

/// The addresses of accounts come in strictly ascending order, each once.
pub proof fn law_addresses_in_order(accounts: AccountsView)
    requires
        accounts.dom().finite(),
    ensures
        addresses_of(accounts).len() == accounts.dom().len(),
        forall|i: int, j: int|
            0 <= i < j < addresses_of(accounts).len() ==> (
            #[trigger] addresses_of(accounts)[i]).rank() < (
            #[trigger] addresses_of(accounts)[j]).rank(),
        forall|address: Address|
            addresses_of(accounts).contains(address) <==> #[trigger] accounts.contains_key(address),
{
    law_listing_in_order(accounts);
    let entries = listing(accounts);
    let addresses = addresses_of(accounts);
    assert(forall|i: int| 0 <= i < entries.len() ==> (#[trigger] addresses[i]) == entries[i].0);
    assert forall|i: int, j: int| 0 <= i < j < addresses.len() implies (
    #[trigger] addresses[i]).rank() < (#[trigger] addresses[j]).rank() by {
        assert(entries[i].0.rank() < entries[j].0.rank());
    }
    assert forall|address: Address| addresses.contains(address)
        <==> #[trigger] accounts.contains_key(address) by {
        if accounts.contains_key(address) {
            let i = choose|i: int| 0 <= i < entries.len() && (#[trigger] entries[i]).0 == address;
            assert(addresses[i] == address);
        }
        if addresses.contains(address) {
            let i = choose|i: int| 0 <= i < addresses.len() && addresses[i] == address;
            assert(accounts.contains_key(entries[i].0));
        }
    }
}

/// The addresses of traces are those of each trace, one trace after the other.
pub proof fn law_addresses_trace_by_trace(traces: Seq<AccountsView>, i: int)
    requires
        0 <= i <= traces.len(),
    ensures
        addresses_in(traces) == addresses_in(traces.take(i)) + addresses_in(traces.skip(i)),
        traces.len() == 0 ==> addresses_in(traces).len() == 0,
        traces.len() == 1 ==> addresses_in(traces) == addresses_of(traces[0]),
    decreases traces.len(),
{
    if i == traces.len() {
        assert(traces.take(i) =~= traces);
        assert(addresses_in(traces) + addresses_in(traces.skip(i)) =~= addresses_in(traces));
    } else {
        let shorter = traces.drop_last();
        law_addresses_trace_by_trace(shorter, i);
        assert(shorter.take(i) =~= traces.take(i));
        assert(traces.skip(i).drop_last() =~= shorter.skip(i));
        assert(traces.skip(i).last() == traces.last());
        assert(addresses_in(traces) =~= addresses_in(traces.take(i)) + addresses_in(
            traces.skip(i),
        ));
    }
    if traces.len() == 1 {
        assert(addresses_in(traces.drop_last()) =~= Seq::<Address>::empty());
        assert(addresses_in(traces) =~= addresses_of(traces[0]));
    }
}

/// An account that one trace alone sees is taken over as it is.
pub proof fn law_only_sighting_is_taken_over(traces: Seq<AccountsView>, i: int, address: Address)
    requires
        0 <= i < traces.len(),
        traces[i].contains_key(address),
        forall|j: int|
            0 <= j < traces.len() && j != i ==> !(#[trigger] traces[j]).contains_key(address),
    ensures
        state_after(traces).contains_key(address),
        state_after(traces)[address] == traces[i][address],
    decreases traces.len(),
{
    let shorter = traces.drop_last();
    if i < traces.len() - 1 {
        assert(shorter[i] == traces[i]);
        assert forall|j: int| 0 <= j < shorter.len() && j != i implies !(
        #[trigger] shorter[j]).contains_key(address) by {
            assert(shorter[j] == traces[j]);
        }
        law_only_sighting_is_taken_over(shorter, i, address);
        assert(!traces[traces.len() - 1].contains_key(address));
    } else {
        law_state_holds_every_account_seen(shorter, address);
        if state_after(shorter).contains_key(address) {
            let j = choose|j: int|
                0 <= j < shorter.len() && (#[trigger] shorter[j]).contains_key(address);
            assert(traces[j].contains_key(address));
        }
    }
}

/// An account that two traces see has storage exactly where it has a slot.
pub proof fn law_storage_of_account_seen_again(
    traces: Seq<AccountsView>,
    i: int,
    j: int,
    address: Address,
)
    requires
        0 <= i < j < traces.len(),
        traces[i].contains_key(address),
        traces[j].contains_key(address),
    ensures
        state_after(traces).contains_key(address),
        state_after(traces)[address].storage is Some <==> exists|slot: H256|
            slot_of(state_after(traces)[address], slot) is Some,
    decreases traces.len(),
{
    let shorter = traces.drop_last();
    let state = state_after(shorter);
    let trace = traces.last();
    assert(shorter[i] == traces[i]);
    law_state_holds_every_account_seen(shorter, address);
    assert(shorter[i].contains_key(address));
    if trace.contains_key(address) {
        law_merge_takes_slots_only(state[address], trace[address]);
    } else {
        assert(j < shorter.len());
        assert(shorter[j] == traces[j]);
        law_storage_of_account_seen_again(shorter, i, j, address);
    }
}

/// An account shows what it holds.
pub proof fn law_account_shown(account: AccountState)
    ensures
        account@.balance == account.balance,
        account@.nonce == account.nonce,
        account@.code is Some <==> account.code is Some,
        account.code matches Some(code) ==> account@.code == Some(code@),
        account@.storage is Some <==> account.storage is Some,
        account.storage matches Some(storage) ==> account@.storage == Some(storage@),
{
}

/// `address` is seen in `trace`, and in none of the traces before it.
pub open spec fn first_seen(traces: Seq<AccountsView>, i: int, address: Address) -> bool {
    &&& 0 <= i < traces.len()
    &&& traces[i].contains_key(address)
    &&& forall|j: int| 0 <= j < i ==> !(#[trigger] traces[j]).contains_key(address)
}

/// The state knows exactly the accounts that some trace has seen.
pub proof fn law_state_holds_every_account_seen(traces: Seq<AccountsView>, address: Address)
    ensures
        state_after(traces).contains_key(address) <==> exists|i: int|
            0 <= i < traces.len() && (#[trigger] traces[i]).contains_key(address),
    decreases traces.len(),
{
    if traces.len() > 0 {
        let shorter = traces.drop_last();
        law_state_holds_every_account_seen(shorter, address);
        if state_after(shorter).contains_key(address) {
            let i = choose|i: int|
                0 <= i < shorter.len() && (#[trigger] shorter[i]).contains_key(address);
            assert(traces[i].contains_key(address));
        }
        if traces.last().contains_key(address) {
            assert(traces[traces.len() - 1].contains_key(address));
        }
        if exists|i: int| 0 <= i < traces.len() && (#[trigger] traces[i]).contains_key(address) {
            let i = choose|i: int|
                0 <= i < traces.len() && (#[trigger] traces[i]).contains_key(address);
            if i < traces.len() - 1 {
                assert(shorter[i].contains_key(address));
            }
        }
    }
}

/// Balance, code and nonce of an account are those of its first sighting.
pub proof fn law_first_sighting_counts(traces: Seq<AccountsView>, i: int, address: Address)
    requires
        first_seen(traces, i, address),
    ensures
        state_after(traces).contains_key(address),
        state_after(traces)[address].balance == traces[i][address].balance,
        state_after(traces)[address].code == traces[i][address].code,
        state_after(traces)[address].nonce == traces[i][address].nonce,
    decreases traces.len(),
{
    let shorter = traces.drop_last();
    if i < traces.len() - 1 {
        assert forall|j: int| 0 <= j < i implies !(#[trigger] shorter[j]).contains_key(
            address,
        ) by {
            assert(shorter[j] == traces[j]);
        }
        assert(shorter[i] == traces[i]);
        law_first_sighting_counts(shorter, i, address);
    } else {
        law_state_holds_every_account_seen(shorter, address);
        if state_after(shorter).contains_key(address) {
            let j = choose|j: int|
                0 <= j < shorter.len() && (#[trigger] shorter[j]).contains_key(address);
            assert(traces[j].contains_key(address));
        }
    }
}

/// A trace gives a slot of an account.
pub open spec fn gives_slot(trace: AccountsView, address: Address, slot: H256) -> bool {
    trace.contains_key(address) && slot_of(trace[address], slot) is Some
}

/// A slot of an account has the value of the last trace that gives it.
pub proof fn law_last_slot_value_counts(
    traces: Seq<AccountsView>,
    i: int,
    address: Address,
    slot: H256,
)
    requires
        0 <= i < traces.len(),
        gives_slot(traces[i], address, slot),
        forall|j: int| i < j < traces.len() ==> !gives_slot(#[trigger] traces[j], address, slot),
    ensures
        gives_slot(state_after(traces), address, slot),
        state_after(traces)[address].slots()[slot] == traces[i][address].slots()[slot],
        slot_of(state_after(traces)[address], slot) == slot_of(traces[i][address], slot),
    decreases traces.len(),
{
    let shorter = traces.drop_last();
    let state = state_after(shorter);
    let trace = traces.last();
    if i < traces.len() - 1 {
        assert(shorter[i] == traces[i]);
        assert forall|j: int| i < j < shorter.len() implies !gives_slot(
            #[trigger] shorter[j],
            address,
            slot,
        ) by {
            assert(shorter[j] == traces[j]);
        }
        law_last_slot_value_counts(shorter, i, address, slot);
        assert(!gives_slot(traces[traces.len() - 1], address, slot));
    }
    if trace.contains_key(address) && state.contains_key(address) {
        law_merge_takes_slots_only(state[address], trace[address]);
        lemma_merged_slots(state[address], trace[address]);
    }
}

/// The slots of a merged account.
proof fn lemma_merged_slots(known: AccountStateView, seen: AccountStateView)
    ensures
        merged(known, seen).slots() == known.slots().union_prefer_right(seen.slots()),
{
    let slots = known.slots().union_prefer_right(seen.slots());
    assert(merged(known, seen).slots() =~= slots);
}

/// No slot of an account is known that no trace gives.
pub proof fn law_no_slot_invented(traces: Seq<AccountsView>, address: Address, slot: H256)
    requires
        gives_slot(state_after(traces), address, slot),
    ensures
        exists|i: int| 0 <= i < traces.len() && gives_slot(#[trigger] traces[i], address, slot),
    decreases traces.len(),
{
    if traces.len() > 0 {
        let shorter = traces.drop_last();
        let state = state_after(shorter);
        let trace = traces.last();
        if trace.contains_key(address) && state.contains_key(address) {
            lemma_merged_slots(state[address], trace[address]);
        }
        if gives_slot(trace, address, slot) {
            assert(gives_slot(traces[traces.len() - 1], address, slot));
        } else {
            assert(gives_slot(state, address, slot));
            law_no_slot_invented(shorter, address, slot);
            let i = choose|i: int|
                0 <= i < shorter.len() && gives_slot(#[trigger] shorter[i], address, slot);
            assert(gives_slot(traces[i], address, slot));
        }
    }
}

/// A repeated trace changes no account of the state, but that one without slots
/// comes to have no storage.
pub proof fn law_repeated_trace(state: AccountsView, trace: AccountsView, address: Address)
    requires
        with_trace(state, trace).contains_key(address),
    ensures
        ({
            let once = with_trace(state, trace);
            let twice = with_trace(once, trace);
            &&& twice.contains_key(address)
            &&& twice[address].balance == once[address].balance
            &&& twice[address].code == once[address].code
            &&& twice[address].nonce == once[address].nonce
            &&& twice[address].slots() == once[address].slots()
        }),
{
    let once = with_trace(state, trace);
    let twice = with_trace(once, trace);
    if trace.contains_key(address) {
        lemma_merged_slots(once[address], trace[address]);
        if state.contains_key(address) {
            lemma_merged_slots(state[address], trace[address]);
        }
        assert(twice[address].slots() =~= once[address].slots());
    }
}

} // verus!
