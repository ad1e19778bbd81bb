//! Fixed-width values of the chain: addresses, hashes and 256-bit words, each
//! with the number it denotes, and the order that goes by that number.
use vstd::arithmetic::power::pow;
use vstd::prelude::*;

verus! {

/// A 20-byte account address.
#[derive(Clone, Copy, Debug, PartialEq, Eq)]
pub struct Address(pub [u8; 20]);

/// A 32-byte hash.
#[derive(Clone, Copy, Debug, PartialEq, Eq)]
pub struct H256(pub [u8; 32]);

/// A 256-bit unsigned word, as four 64-bit limbs, the least significant first.
#[derive(Clone, Copy, Debug, PartialEq, Eq)]
pub struct U256(pub [u64; 4]);

/// A 2048-bit log filter.
#[derive(Clone, Copy, Debug, PartialEq, Eq)]
pub struct Bloom(pub [u8; 256]);

/// The root hash of a trie.
pub type TrieRootHash = H256;

/// Poseidon hash of empty bytes.
pub const POSEIDON_EMPTY_HASH: [u8; 32] = [
    59, 174, 217, 40, 154, 56, 79, 108, 28, 5, 217, 43, 86, 200, 1, 194, 210, 226, 167, 5, 13,
    108, 22, 83, 139, 129, 79, 161, 134, 131, 92, 121,
];

/// Keccak of empty bytes.
pub const EMPTY_HASH: [u8; 32] = [
    197, 210, 70, 1, 134, 247, 35, 60, 146, 126, 125, 178, 220, 199, 3, 192, 229, 0, 182, 83,
    202, 130, 39, 59, 123, 250, 216, 4, 93, 133, 164, 112,
];

/// Root hash of the empty trie:
/// 0x56e81f171bcc55a6ff8345e692c0f86e5b48e01b996cadc001622fb5e363b421
pub const EMPTY_TRIE_HASH: [u8; 32] = [
    86, 232, 31, 23, 27, 204, 85, 166, 255, 131, 69, 230, 146, 192, 248, 110, 91, 72, 224, 27,
    153, 108, 173, 192, 1, 98, 47, 181, 227, 99, 180, 33,
];

/// The number that `bytes` denote, the most significant byte first.
pub open spec fn be_value(bytes: Seq<u8>) -> nat
    decreases bytes.len(),
{
    if bytes.len() == 0 {
        0
    } else {
        be_value(bytes.drop_last()) * 256 + bytes.last() as nat
    }
}

/// The number that four limbs denote, the least significant limb first.
pub open spec fn limbs_value(limbs: Seq<u64>) -> nat {
    (limbs[0] + limbs[1] * 0x1_0000_0000_0000_0000int
        + limbs[2] * 0x1_0000_0000_0000_0000_0000_0000_0000_0000int
        + limbs[3] * 0x1_0000_0000_0000_0000_0000_0000_0000_0000_0000_0000_0000_0000int) as nat
}

/// The word that denotes `n`.
pub open spec fn word(n: nat) -> U256 {
    choose|w: U256| w.value() == n
}

/// A word is the one that denotes its value.
pub proof fn lemma_word(w: U256)
    ensures
        word(w.value()) == w,
{
    U256::lemma_rank_injective(word(w.value()), w);
}

/// Every number of 256 bits is denoted by a word.
pub proof fn lemma_word_value(n: nat)
    requires
        n < 0x1_0000_0000_0000_0000_0000_0000_0000_0000_0000_0000_0000_0000_0000_0000_0000_0000nat,
    ensures
        word(n).value() == n,
{
    let limb = 0x1_0000_0000_0000_0000nat;
    let (low, rest) = (n % limb, n / limb);
    let (second, upper) = (rest % limb, rest / limb);
    let (third, high) = (upper % limb, upper / limb);
    let w = U256([low as u64, second as u64, third as u64, high as u64]);
    assert(w.0@ =~= seq![low as u64, second as u64, third as u64, high as u64]);
    assert(w.value() == n);
}

/// How many numbers a byte string of this length can denote.
spec fn byte_strings(len: nat) -> nat
    decreases len,
{
    if len == 0 {
        1
    } else {
        256 * byte_strings((len - 1) as nat)
    }
}

/// Longer byte strings denote more numbers.
proof fn lemma_byte_strings_grow(shorter: nat, longer: nat)
    requires
        shorter <= longer,
    ensures
        byte_strings(shorter) <= byte_strings(longer),
    decreases longer,
{
    if shorter < longer {
        lemma_byte_strings_grow(shorter, (longer - 1) as nat);
    }
}

/// The number that a byte string denotes is bounded by its length.
proof fn lemma_be_value_bound(bytes: Seq<u8>)
    ensures
        be_value(bytes) < byte_strings(bytes.len()),
    decreases bytes.len(),
{
    if bytes.len() > 0 {
        lemma_be_value_bound(bytes.drop_last());
    }
}

/// The number that at most 32 bytes denote is denoted by a word.
pub proof fn lemma_bytes_fit_word(bytes: Seq<u8>)
    requires
        bytes.len() <= 32,
    ensures
        word(be_value(bytes)).value() == be_value(bytes),
{
    lemma_be_value_bound(bytes);
    lemma_byte_strings_grow(bytes.len(), 32);
    reveal_with_fuel(byte_strings, 33);
    lemma_word_value(be_value(bytes));
}

/// A byte denotes itself, and no bytes denote zero.
pub proof fn law_value_of_byte(b: u8)
    ensures
        be_value(Seq::empty()) == 0,
        be_value(seq![b]) == b,
{
    assert(seq![b].drop_last() =~= Seq::<u8>::empty());
}

/// Each byte that follows shifts what stands before it up by one place.
pub proof fn law_value_of_longer_bytes(front: Seq<u8>, back: Seq<u8>)
    ensures
        be_value(front + back) == be_value(front) * pow(256, back.len()) + be_value(back),
    decreases back.len(),
{
    reveal(pow);
    if back.len() == 0 {
        assert(front + back =~= front);
    } else {
        let shorter = back.drop_last();
        law_value_of_longer_bytes(front, shorter);
        assert((front + back).drop_last() =~= front + shorter);
        let high = be_value(front) as int;
        let place = pow(256, shorter.len());
        assert((high * place) * 256 == high * (256 * place)) by (nonlinear_arith);
    }
}

/// Each limb of a word stands one place of 64 bits above the one before it.
pub proof fn law_value_of_limbs(w: U256)
    ensures
        w.value() == w.0[0] + 0x1_0000_0000_0000_0000 * (w.0[1] + 0x1_0000_0000_0000_0000 * (w.0[2]
            + 0x1_0000_0000_0000_0000 * w.0[3])),
        w.rank() == w.value(),
{
}

/// Addresses are ordered by the first byte in which they differ.
pub proof fn law_address_order(a: Address, b: Address, at: int)
    requires
        0 <= at < 20,
        forall|i: int| 0 <= i < at ==> a.0@[i] == b.0@[i],
        a.0@[at] < b.0@[at],
    ensures
        a.rank() < b.rank(),
{
    lemma_first_difference(a.0@, b.0@, at);
}

/// Hashes are ordered by the first byte in which they differ.
pub proof fn law_hash_order(a: H256, b: H256, at: int)
    requires
        0 <= at < 32,
        forall|i: int| 0 <= i < at ==> a.0@[i] == b.0@[i],
        a.0@[at] < b.0@[at],
    ensures
        a.rank() < b.rank(),
{
    lemma_first_difference(a.0@, b.0@, at);
}

/// Values that are told apart, and ordered, by a number.
pub trait Ranked: Copy {
    /// The number by which the value is ordered.
    spec fn rank(self) -> nat;

    /// A value is known by its rank.
    proof fn lemma_rank_injective(a: Self, b: Self)
        requires
            a.rank() == b.rank(),
        ensures
            a == b,
    ;

    /// Whether `self` comes strictly before `other`.
    fn precedes(&self, other: &Self) -> (before: bool)
        ensures
            before == (self.rank() < other.rank()),
    ;

    /// Whether the two values are the same.
    fn same(&self, other: &Self) -> (equal: bool)
        ensures
            equal == (*self == *other),
    ;
}

/// Of two byte strings that agree up to `at` and differ there, the one with the
/// smaller byte denotes the smaller number.
proof fn lemma_first_difference(a: Seq<u8>, b: Seq<u8>, at: int)
    requires
        a.len() == b.len(),
        0 <= at < a.len(),
        forall|i: int| 0 <= i < at ==> a[i] == b[i],
        a[at] < b[at],
    ensures
        be_value(a) < be_value(b),
    decreases a.len(),
{
    if at == a.len() - 1 {
        assert(a.drop_last() =~= b.drop_last());
    } else {
        lemma_first_difference(a.drop_last(), b.drop_last(), at);
    }
}

/// Byte strings of one length that denote the same number are equal.
pub proof fn lemma_be_value_injective(a: Seq<u8>, b: Seq<u8>)
    requires
        a.len() == b.len(),
        be_value(a) == be_value(b),
    ensures
        a == b,
    decreases a.len(),
{
    if a.len() > 0 {
        lemma_be_value_injective(a.drop_last(), b.drop_last());
        assert(a =~= a.drop_last().push(a.last()));
        assert(b =~= b.drop_last().push(b.last()));
    }
    assert(a =~= b);
}

/// Whether `a` denotes a smaller number than `b`.
fn bytes_precede(a: &[u8], b: &[u8]) -> (before: bool)
    requires
        a@.len() == b@.len(),
    ensures
        before == (be_value(a@) < be_value(b@)),
{
    let mut i: usize = 0;
    while i < a.len()
        invariant
            i <= a@.len(),
            a@.len() == b@.len(),
            forall|j: int| 0 <= j < i ==> a@[j] == b@[j],
        decreases a@.len() - i,
    {
        if a[i] < b[i] {
            proof {
                lemma_first_difference(a@, b@, i as int);
            }
            return true;
        }
        if b[i] < a[i] {
            proof {
                lemma_first_difference(b@, a@, i as int);
            }
            return false;
        }
        i = i + 1;
    }
    assert(a@ =~= b@);
    false
}

/// Whether two byte strings are equal.
fn bytes_same(a: &[u8], b: &[u8]) -> (equal: bool)
    requires
        a@.len() == b@.len(),
    ensures
        equal == (a@ == b@),
{
    let mut i: usize = 0;
    while i < a.len()
        invariant
            i <= a@.len(),
            a@.len() == b@.len(),
            forall|j: int| 0 <= j < i ==> a@[j] == b@[j],
        decreases a@.len() - i,
    {
        if a[i] != b[i] {
            return false;
        }
        i = i + 1;
    }
    assert(a@ =~= b@);
    true
}

impl Ranked for Address {
    open spec fn rank(self) -> nat {
        be_value(self.0@)
    }

    proof fn lemma_rank_injective(a: Self, b: Self) {
        lemma_be_value_injective(a.0@, b.0@);
        assert forall|i: int| 0 <= i < 20 implies a.0[i] == b.0[i] by {
            assert(a.0@[i] == b.0@[i]);
        }
        assert(a.0 =~= b.0);
    }

    fn precedes(&self, other: &Self) -> (before: bool) {
        bytes_precede(&self.0, &other.0)
    }

    fn same(&self, other: &Self) -> (equal: bool) {
        let equal = bytes_same(&self.0, &other.0);
        proof {
            if equal {
                Self::lemma_rank_injective(*self, *other);
            }
        }
        equal
    }
}

impl Ranked for H256 {
    open spec fn rank(self) -> nat {
        be_value(self.0@)
    }

    proof fn lemma_rank_injective(a: Self, b: Self) {
        lemma_be_value_injective(a.0@, b.0@);
        assert forall|i: int| 0 <= i < 32 implies a.0[i] == b.0[i] by {
            assert(a.0@[i] == b.0@[i]);
        }
        assert(a.0 =~= b.0);
    }

    fn precedes(&self, other: &Self) -> (before: bool) {
        bytes_precede(&self.0, &other.0)
    }

    fn same(&self, other: &Self) -> (equal: bool) {
        let equal = bytes_same(&self.0, &other.0);
        proof {
            if equal {
                Self::lemma_rank_injective(*self, *other);
            }
        }
        equal
    }
}

impl Ranked for U256 {
    open spec fn rank(self) -> nat {
        limbs_value(self.0@)
    }

    proof fn lemma_rank_injective(a: Self, b: Self) {
        assert(a.0@[3] == b.0@[3]);
        assert(a.0@[2] == b.0@[2]);
        assert(a.0@[1] == b.0@[1]);
        assert(a.0@[0] == b.0@[0]);
        assert(a.0 =~= b.0);
    }

    fn precedes(&self, other: &Self) -> (before: bool) {
        if self.0[3] != other.0[3] {
            self.0[3] < other.0[3]
        } else if self.0[2] != other.0[2] {
            self.0[2] < other.0[2]
        } else if self.0[1] != other.0[1] {
            self.0[1] < other.0[1]
        } else {
            self.0[0] < other.0[0]
        }
    }

    fn same(&self, other: &Self) -> (equal: bool) {
        let equal = self.0[0] == other.0[0] && self.0[1] == other.0[1] && self.0[2] == other.0[2]
            && self.0[3] == other.0[3];
        proof {
            if equal {
                Self::lemma_rank_injective(*self, *other);
            }
        }
        equal
    }
}

impl U256 {
    /// The number that the word denotes.
    pub open spec fn value(self) -> nat {
        limbs_value(self.0@)
    }

    /// A word from its low 64 bits.
    pub fn from_u64(low: u64) -> (word: U256)
        ensures
            word.0@ == seq![low, 0, 0, 0],
            word.value() == low,
    {
        let word = U256([low, 0, 0, 0]);
        assert(word.0@ =~= seq![low, 0, 0, 0]);
        word
    }

    /// Whether the word is zero.
    pub fn is_zero(&self) -> (zero: bool)
        ensures
            zero == (self.value() == 0),
            zero == (self.0@ == seq![0u64, 0, 0, 0]),
    {
        assert(self.0@ =~= seq![self.0[0], self.0[1], self.0[2], self.0[3]]);
        self.0[0] == 0 && self.0[1] == 0 && self.0[2] == 0 && self.0[3] == 0
    }
}

} // verus!
