//! The ways in which gathering a witness fails.
use vstd::prelude::*;
use vstd::string::*;

verus! {

/// Something that the node was asked for and does not have.
#[derive(Clone, Copy, Debug, PartialEq, Eq)]
pub enum NotFound {
    /// A transaction.
    Transaction,
    /// The block with this number.
    Block(u64),
}

/// Why a string is not the hexadecimal form of a byte string.
#[derive(Clone, Copy, Debug, PartialEq, Eq)]
pub enum HexError {
    /// A character that is no hexadecimal digit, and where it stands.
    InvalidHexCharacter { c: char, index: usize },
    /// An odd number of digits.
    OddLength,
    /// A number of digits that does not suit the container.
    InvalidStringLength,
}

/// Why gathering a witness failed.
#[derive(Clone, Copy, Debug, PartialEq, Eq)]
pub enum GatherError {
    /// The node lacks something.
    NotFound(NotFound),
    /// The code of an account is not in hexadecimal form.
    Code(HexError),
}

/// The character of a decimal digit.
pub open spec fn digit(d: nat) -> char {
    if d == 0 {
        '0'
    } else if d == 1 {
        '1'
    } else if d == 2 {
        '2'
    } else if d == 3 {
        '3'
    } else if d == 4 {
        '4'
    } else if d == 5 {
        '5'
    } else if d == 6 {
        '6'
    } else if d == 7 {
        '7'
    } else if d == 8 {
        '8'
    } else {
        '9'
    }
}

/// The decimal form of a number, without leading zeros.
pub open spec fn decimal(n: nat) -> Seq<char>
    decreases n,
{
    if n < 10 {
        seq![digit(n)]
    } else {
        decimal(n / 10).push(digit(n % 10))
    }
}

/// The number that decimal digits denote.
pub open spec fn decimal_value(digits: Seq<char>) -> int
    decreases digits.len(),
{
    if digits.len() == 0 {
        0
    } else {
        decimal_value(digits.drop_last()) * 10 + (digits.last() as int - '0' as int)
    }
}

/// The decimal form of a number holds digits only, denotes the number, and starts
/// with a zero only where it is nothing else.
pub proof fn law_decimal_read_back(n: nat)
    ensures
        decimal(n).len() > 0,
        forall|i: int|
            0 <= i < decimal(n).len() ==> '0' as int <= #[trigger] decimal(n)[i] as int <= '9' as int,
        decimal_value(decimal(n)) == n,
        decimal(n)[0] == '0' ==> decimal(n).len() == 1,
        decimal(n).last() as int == '0' as int + n % 10,
        n < 10 ==> decimal(n).len() == 1,
        n >= 10 ==> decimal(n).drop_last() == decimal(n / 10),
    decreases n,
{
    if n < 10 {
        assert(decimal(n).drop_last() =~= Seq::<char>::empty());
        assert(decimal_value(Seq::<char>::empty()) == 0);
    } else {
        law_decimal_read_back(n / 10);
        assert(decimal(n).drop_last() =~= decimal(n / 10));
        if n / 10 < 10 {
            assert(n / 10 != 0);
            assert(decimal(n / 10)[0] == digit(n / 10));
        } else {
            lemma_decimal_longer(n / 10);
        }
    }
}

/// A number of two digits or more has a form of two or more.
proof fn lemma_decimal_longer(n: nat)
    requires
        n >= 10,
    ensures
        decimal(n).len() >= 2,
    decreases n,
{
    law_decimal_read_back(n / 10);
}

/// The string of a decimal digit.
fn digit_str(d: u64) -> (s: &'static str)
    requires
        d < 10,
    ensures
        s@ == seq![digit(d as nat)],
{
    proof {
        reveal_strlit("0");
        reveal_strlit("1");
        reveal_strlit("2");
        reveal_strlit("3");
        reveal_strlit("4");
        reveal_strlit("5");
        reveal_strlit("6");
        reveal_strlit("7");
        reveal_strlit("8");
        reveal_strlit("9");
    }
    let s: &'static str = match d {
        0 => "0",
        1 => "1",
        2 => "2",
        3 => "3",
        4 => "4",
        5 => "5",
        6 => "6",
        7 => "7",
        8 => "8",
        _ => "9",
    };
    assert(s@ =~= seq![digit(d as nat)]);
    s
}

/// The decimal form of `n`.
fn decimal_string(n: u64) -> (s: String)
    ensures
        s@ == decimal(n as nat),
    decreases n,
{
    if n < 10 {
        digit_str(n).to_owned()
    } else {
        let mut s = decimal_string(n / 10);
        s.append(digit_str(n % 10));
        assert(s@ =~= decimal(n as nat));
        s
    }
}

impl NotFound {
    /// The words in which the lack is reported.
    pub open spec fn words(self) -> Seq<char> {
        match self {
            NotFound::Transaction => "Transaction not found."@,
            NotFound::Block(number) => "Block not found. Block number: "@ + decimal(number as nat),
        }
    }

    /// Reports the lack in words.
    pub fn message(&self) -> (text: String)
        ensures
            text@ == self.words(),
            match self {
                NotFound::Transaction => text@ == "Transaction not found."@,
                NotFound::Block(number) => text@ == "Block not found. Block number: "@ + decimal(
                    *number as nat,
                ),
            },
    {
        match self {
            NotFound::Transaction => "Transaction not found.".to_owned(),
            NotFound::Block(number) => {
                let mut text = "Block not found. Block number: ".to_owned();
                text.append(decimal_string(*number).as_str());
                text
            },
        }
    }
}

} // verus!
