//! Bytes and the forms in which they travel: hexadecimal digits, big-endian
//! words and Keccak digests.
use crate::errors::HexError;
use crate::primitives::{
    be_value, lemma_be_value_injective, lemma_bytes_fit_word, lemma_word, word, U256,
};
use vstd::prelude::*;
use vstd::string::*;
use vstd::utf8::*;

verus! {

/// Whether a byte is the character of a hexadecimal digit.
pub open spec fn is_hex_digit(b: u8) -> bool {
    ||| 0x30 <= b <= 0x39
    ||| 0x41 <= b <= 0x46
    ||| 0x61 <= b <= 0x66
}

/// The value of a hexadecimal digit, in upper or lower case.
pub open spec fn hex_digit_value(b: u8) -> int {
    if b <= 0x39 {
        b - 0x30
    } else if b <= 0x46 {
        b - 0x41 + 10
    } else {
        b - 0x61 + 10
    }
}

/// `digits` holds hexadecimal digits only.
pub open spec fn all_hex(digits: Seq<u8>) -> bool {
    forall|i: int| 0 <= i < digits.len() ==> is_hex_digit(#[trigger] digits[i])
}

/// The bytes that pairs of hexadecimal digits denote.
pub open spec fn hex_bytes(digits: Seq<u8>) -> Seq<u8> {
    Seq::new(
        digits.len() / 2,
        |i: int| (hex_digit_value(digits[2 * i]) * 16 + hex_digit_value(digits[2 * i + 1])) as u8,
    )
}

/// Where the first byte stands that is no hexadecimal digit.
pub open spec fn first_non_hex(digits: Seq<u8>) -> int {
    choose|i: int|
        0 <= i < digits.len() && !is_hex_digit(digits[i]) && all_hex(#[trigger] digits.take(i))
}

/// What `digits` denote in hexadecimal, or why they denote nothing.
pub open spec fn hex_decoded(digits: Seq<u8>) -> Result<Seq<u8>, HexError> {
    if digits.len() % 2 != 0 {
        Err(HexError::OddLength)
    } else if all_hex(digits) {
        Ok(hex_bytes(digits))
    } else {
        let at = first_non_hex(digits);
        Err(HexError::InvalidHexCharacter { c: digits[at] as char, index: at as usize })
    }
}

/// A string with a byte that is no digit has a first one.
pub proof fn law_hex_error_names_first_non_digit(digits: Seq<u8>)
    requires
        !all_hex(digits),
    ensures
        0 <= first_non_hex(digits) < digits.len(),
        !is_hex_digit(digits[first_non_hex(digits)]),
        forall|i: int| 0 <= i < first_non_hex(digits) ==> is_hex_digit(#[trigger] digits[i]),
{
    assert(digits.take(digits.len() as int) =~= digits);
    lemma_first_non_hex_exists(digits, digits.len() as int);
    let at = first_non_hex(digits);
    assert forall|i: int| 0 <= i < at implies is_hex_digit(#[trigger] digits[i]) by {
        assert(digits.take(at)[i] == digits[i]);
    }
}

/// Among the first `n` bytes, not all digits, there is a first that is none.
proof fn lemma_first_non_hex_exists(digits: Seq<u8>, n: int)
    requires
        0 <= n <= digits.len(),
        !all_hex(digits.take(n)),
    ensures
        exists|i: int|
            0 <= i < digits.len() && !is_hex_digit(digits[i]) && all_hex(#[trigger] digits.take(i)),
    decreases n,
{
    if n > 0 {
        if all_hex(digits.take(n - 1)) {
            let bad = choose|i: int| 0 <= i < n && !is_hex_digit(#[trigger] digits.take(n)[i]);
            if bad < n - 1 {
                assert(digits.take(n - 1)[bad] == digits[bad]);
            }
            assert(bad == n - 1);
        } else {
            lemma_first_non_hex_exists(digits, n - 1);
        }
    }
}

/// The character of a hexadecimal digit, in lower case.
pub open spec fn hex_char(v: u8) -> char {
    if v < 10 {
        (0x30 + v) as char
    } else {
        (0x57 + v) as char
    }
}

/// The digits are ten decimal ones and six letters, in either case, and stand for
/// zero to fifteen.
pub proof fn law_hex_digits(v: u8)
    requires
        v < 16,
    ensures
        is_hex_digit(hex_char(v) as u8),
        hex_digit_value(hex_char(v) as u8) == v,
        v >= 10 ==> is_hex_digit((0x37 + v) as u8) && hex_digit_value((0x37 + v) as u8) == v,
        forall|b: u8| #[trigger]
            is_hex_digit(b) ==> {
                let value = hex_digit_value(b);
                &&& 0 <= value < 16
                &&& b == 0x30 + value || value >= 10 && (b == 0x37 + value || b == 0x57 + value)
            },
{
}

/// Code that is written out in hexadecimal behind `0x` is read back.
pub proof fn law_code_read_back(code: Seq<char>, bytes: Seq<u8>)
    requires
        code.len() == 2 + 2 * bytes.len(),
        code[0] == '0',
        code[1] == 'x',
        forall|i: int|
            #![trigger bytes[i]]
            0 <= i < bytes.len() ==> code[2 + 2 * i] == hex_char(bytes[i] / 16) && code[3 + 2 * i]
                == hex_char(bytes[i] % 16),
    ensures
        has_prefix(code),
        code_decoded(code) == Ok::<Seq<u8>, HexError>(bytes),
{
    assert forall|k: int| 0 <= k < code.len() implies '\0' <= #[trigger] code[k]
        <= '\u{7f}' by {
        if k >= 2 {
            let i = (k - 2) / 2;
            assert(bytes[i] / 16 < 16 && bytes[i] % 16 < 16);
            assert(k == 2 + 2 * i || k == 3 + 2 * i);
        }
    }
    is_ascii_chars_encode_utf8(code);
    let utf8 = encode_utf8(code);
    assert(utf8 =~= Seq::new(code.len(), |i: int| code[i] as u8));
    encode_utf8_valid_utf8(code);
    if bytes.len() == 0 {
        is_char_boundary_start_end_of_seq(utf8);
    } else {
        assert(utf8[2] == hex_char(bytes[0] / 16) as u8);
        law_hex_digits(bytes[0] / 16);
        is_char_boundary_iff_not_is_continuation_byte(utf8, 2);
        utf8_byte_ranges_bitwise(utf8[2]);
    }
    let digits = without_prefix(code);
    assert forall|k: int| 0 <= k < digits.len() implies is_hex_digit(#[trigger] digits[k]) by {
        let i = k / 2;
        law_hex_digits(bytes[i] / 16);
        law_hex_digits(bytes[i] % 16);
        assert(digits[k] == code[2 + k] as u8);
        assert(k == 2 * i || k == 2 * i + 1);
    }
    assert forall|i: int| 0 <= i < bytes.len() implies hex_bytes(digits)[i] == bytes[i] by {
        law_hex_digits(bytes[i] / 16);
        law_hex_digits(bytes[i] % 16);
        assert(digits[2 * i] == code[2 + 2 * i] as u8);
        assert(digits[2 * i + 1] == code[3 + 2 * i] as u8);
    }
    assert(hex_bytes(digits) =~= bytes);
}

/// Calls `hex::decode` on the bytes of a string.
///
/// Trusted: an odd number of bytes is refused first; then the first byte that
/// is no digit is reported with its index; otherwise each pair of digits, the
/// high one first, gives a byte.
#[verifier::external_body]
fn decode(digits: &str) -> (decoded: Result<Vec<u8>, HexError>)
    ensures
        match decoded {
            Ok(bytes) => hex_decoded(digits.spec_bytes()) == Ok::<Seq<u8>, HexError>(bytes@),
            Err(error) => hex_decoded(digits.spec_bytes()) == Err::<Seq<u8>, HexError>(error),
        },
{
    hex::decode(digits).map_err(
        |error| match error {
            hex::FromHexError::InvalidHexCharacter { c, index } =>
                HexError::InvalidHexCharacter { c, index },
            hex::FromHexError::OddLength => HexError::OddLength,
            hex::FromHexError::InvalidStringLength => HexError::InvalidStringLength,
        },
    )
}

/// The Keccak-256 digest of a byte string.
pub uninterp spec fn keccak256_digest(bytes: Seq<u8>) -> Seq<u8>;

/// Calls `ethers::utils::keccak256`.
///
/// Trusted: the digest depends on the bytes alone.
#[verifier::external_body]
pub(crate) fn keccak(bytes: &[u8]) -> (digest: [u8; 32])
    ensures
        digest@ == keccak256_digest(bytes@),
{
    ethers::utils::keccak256(bytes)
}

/// Calls `ethers::types::U256::from_big_endian`.
///
/// Trusted: at most 32 bytes, the most significant first, give the word of the
/// same value.
#[verifier::external_body]
pub(crate) fn from_big_endian(bytes: &[u8]) -> (w: U256)
    requires
        bytes@.len() <= 32,
    ensures
        w.value() == be_value(bytes@),
{
    U256(ethers::types::U256::from_big_endian(bytes).0)
}

/// The word that a big-endian byte string denotes.
pub open spec fn be_word(bytes: Seq<u8>) -> U256 {
    word(be_value(bytes))
}

/// The word of at most 32 bytes denotes what they denote, and no bytes of that length
/// but these have it.
pub proof fn law_word_of_bytes(a: Seq<u8>, b: Seq<u8>)
    requires
        a.len() <= 32,
        a.len() == b.len(),
    ensures
        be_word(a).value() == be_value(a),
        be_word(a) == be_word(b) ==> a == b,
{
    lemma_bytes_fit_word(a);
    lemma_bytes_fit_word(b);
    if be_word(a) == be_word(b) {
        lemma_be_value_injective(a, b);
    }
}

/// Reads at most 32 bytes as a big-endian word.
pub fn read_word(bytes: &[u8]) -> (w: U256)
    requires
        bytes@.len() <= 32,
    ensures
        w.value() == be_value(bytes@),
        w == be_word(bytes@),
{
    let w = from_big_endian(bytes);
    proof {
        lemma_word(w);
    }
    w
}

/// Account code carries a two-byte prefix that can be cut off.
pub open spec fn has_prefix(code: Seq<char>) -> bool {
    is_char_boundary(encode_utf8(code), 2)
}

/// The bytes behind the two-byte prefix of account code.
pub open spec fn without_prefix(code: Seq<char>) -> Seq<u8> {
    encode_utf8(code).skip(2)
}

/// What account code denotes: the hexadecimal digits behind its prefix.
pub open spec fn code_decoded(code: Seq<char>) -> Result<Seq<u8>, HexError> {
    hex_decoded(without_prefix(code))
}

/// Whether account code has a prefix that can be cut off.
pub fn is_prefixed(code: &String) -> (prefixed: bool)
    ensures
        prefixed == has_prefix(code@),
        prefixed == is_char_boundary(encode_utf8(code@), 2),
{
    code.as_str().is_char_boundary(2)
}

/// Decodes account code, whatever its two-byte prefix holds.
pub fn decode_code(code: &String) -> (decoded: Result<Vec<u8>, HexError>)
    requires
        has_prefix(code@),
    ensures
        match decoded {
            Ok(bytes) => code_decoded(code@) == Ok::<Seq<u8>, HexError>(bytes@),
            Err(error) => code_decoded(code@) == Err::<Seq<u8>, HexError>(error),
        },
        ({
            let digits = encode_utf8(code@).skip(2);
            match decoded {
                Ok(bytes) => {
                    &&& digits.len() == 2 * bytes@.len()
                    &&& all_hex(digits)
                    &&& forall|i: int|
                        0 <= i < bytes@.len() ==> #[trigger] bytes@[i] == 16 * hex_digit_value(
                            digits[2 * i],
                        ) + hex_digit_value(digits[2 * i + 1])
                },
                Err(HexError::OddLength) => digits.len() % 2 == 1,
                Err(HexError::InvalidHexCharacter { c, index }) => {
                    &&& digits.len() % 2 == 0
                    &&& index < digits.len()
                    &&& c == digits[index as int] as char
                    &&& !is_hex_digit(digits[index as int])
                    &&& all_hex(digits.take(index as int))
                },
                Err(HexError::InvalidStringLength) => false,
            }
        }),
{
    let (_, digits) = code.as_str().split_at(2);
    proof {
        broadcast use encode_utf8_valid_utf8, is_char_boundary_start_end_of_seq;

        assert(digits.spec_bytes() =~= without_prefix(code@));
    }
    let count = digits.as_bytes().len();
    let decoded = decode(digits);
    proof {
        let digits = without_prefix(code@);
        if digits.len() % 2 == 0 && !all_hex(digits) {
            law_hex_error_names_first_non_digit(digits);
        }
        assert(digits.len() == count);
    }
    decoded
}

} // verus!
