//! Numbers in decimal.

use vstd::prelude::*;
use vstd::string::StringExecFns;

verus! {

/// The decimal digit `d`.
pub open spec fn digit(d: nat) -> char {
    "0123456789"@[d as int]
}

/// `n` in decimal.
pub open spec fn decimal(n: nat) -> Seq<char>
    decreases n,
{
    if n < 10 {
        seq![digit(n)]
    } else {
        decimal(n / 10).push(digit(n % 10))
    }
}

/// The decimal digit `d` as a text.
fn digit_text(d: u64) -> (text: &'static str)
    requires
        d < 10,
    ensures
        text@ == seq![digit(d as nat)],
{
    proof {
        reveal_strlit("0123456789");
        reveal_strlit("0");
        reveal_strlit("1");
        reveal_strlit("2");
        reveal_strlit("3");
        reveal_strlit("4");
        reveal_strlit("5");
        reveal_strlit("6");
        reveal_strlit("7");
        reveal_strlit("8");
        reveal_strlit("9");
    }
    let text: &'static str = if d == 0 {
        "0"
    } else if d == 1 {
        "1"
    } else if d == 2 {
        "2"
    } else if d == 3 {
        "3"
    } else if d == 4 {
        "4"
    } else if d == 5 {
        "5"
    } else if d == 6 {
        "6"
    } else if d == 7 {
        "7"
    } else if d == 8 {
        "8"
    } else {
        "9"
    };
    assert(text@ =~= seq![digit(d as nat)]);
    text
}

/// `n` in decimal.
pub fn decimal_text(n: u64) -> (text: String)
    ensures
        text@ == decimal(n as nat),
    decreases n,
{
    if n < 10 {
        digit_text(n).to_owned()
    } else {
        let text = decimal_text(n / 10).concat(digit_text(n % 10));
        assert(text@ =~= decimal(n as nat));
        text
    }
}

/// `n` in decimal, behind a minus sign if it is negative.
pub open spec fn signed_decimal(n: int) -> Seq<char> {
    if n < 0 {
        seq!['-'] + decimal((-n) as nat)
    } else {
        decimal(n as nat)
    }
}

/// A decimal digit.
pub open spec fn is_digit(c: char) -> bool {
    '0' <= c <= '9'
}

/// A text of digits, at least one.
pub open spec fn all_digits(s: Seq<char>) -> bool {
    s.len() > 0 && forall|i: int| 0 <= i < s.len() ==> is_digit(#[trigger] s[i])
}

/// The number that digits stand for.
pub open spec fn value_of(s: Seq<char>) -> nat
    decreases s.len(),
{
    if s.len() == 0 {
        0
    } else {
        value_of(s.drop_last()) * 10 + (s.last() as int - '0' as int) as nat
    }
}

/// `s` starts with `c`.
pub open spec fn starts(s: Seq<char>, c: char) -> bool {
    s.len() > 0 && s[0] == c
}

/// The number that a text is: digits, which may follow a plus sign.
pub open spec fn unsigned_in(s: Seq<char>) -> Option<nat> {
    let digits = if starts(s, '+') {
        s.skip(1)
    } else {
        s
    };
    if all_digits(digits) {
        Some(value_of(digits))
    } else {
        None
    }
}

/// The number that a text is: digits, which may follow a plus or a minus sign.
pub open spec fn signed_in(s: Seq<char>) -> Option<int> {
    if starts(s, '-') {
        if all_digits(s.skip(1)) {
            Some(-(value_of(s.skip(1)) as int))
        } else {
            None
        }
    } else {
        match unsigned_in(s) {
            Some(n) => Some(n as int),
            None => None,
        }
    }
}

/// The `usize` that a text is, if it is in range.
pub open spec fn usize_in(s: Seq<char>) -> Option<usize> {
    match unsigned_in(s) {
        Some(n) => if n <= usize::MAX {
            Some(n as usize)
        } else {
            None
        },
        None => None,
    }
}

/// The `i64` that a text is, if it is in range.
pub open spec fn i64_in(s: Seq<char>) -> Option<i64> {
    match signed_in(s) {
        Some(n) => if i64::MIN <= n <= i64::MAX {
            Some(n as i64)
        } else {
            None
        },
        None => None,
    }
}

/// Why a text is no number of the type that is wanted.
#[derive(Debug, Clone, Copy, PartialEq, Eq, Structural)]
pub enum NumberFault {
    /// There is no text.
    Empty,
    /// Something else stands where a digit should.
    InvalidDigit,
    /// The number is beyond the greatest of the type.
    TooLarge,
    /// The number is below the least of the type.
    TooSmall,
}

impl NumberFault {
    /// The text of the fault.
    pub open spec fn text(self) -> Seq<char> {
        match self {
            NumberFault::Empty => "cannot parse integer from empty string"@,
            NumberFault::InvalidDigit => "invalid digit found in string"@,
            NumberFault::TooLarge => "number too large to fit in target type"@,
            NumberFault::TooSmall => "number too small to fit in target type"@,
        }
    }

    /// The text of the fault.
    pub fn message(self) -> (message: &'static str)
        ensures
            message@ == self.text(),
    {
        match self {
            NumberFault::Empty => "cannot parse integer from empty string",
            NumberFault::InvalidDigit => "invalid digit found in string",
            NumberFault::TooLarge => "number too large to fit in target type",
            NumberFault::TooSmall => "number too small to fit in target type",
        }
    }
}

/// The number of digits that a text starts with.
pub open spec fn digits_ahead(s: Seq<char>) -> int
    decreases s.len(),
{
    if s.len() == 0 || !is_digit(s[0]) {
        0
    } else {
        1 + digits_ahead(s.skip(1))
    }
}

/// The number that the digits stand for with which a text starts, behind its sign if it has the
/// sign `c`.
pub open spec fn number_ahead(s: Seq<char>, c: char) -> nat {
    let rest = if starts(s, c) {
        s.skip(1)
    } else {
        s
    };
    value_of(rest.take(digits_ahead(rest)))
}

/// Why a text is no `usize`. A number is too large. An empty text is empty. Any other text has an
/// invalid digit; where the digits before it stand for a number that is too large already, that
/// may be the fault that is told.
pub open spec fn usize_fault(s: Seq<char>, fault: NumberFault) -> bool {
    match unsigned_in(s) {
        Some(_) => fault == NumberFault::TooLarge,
        None => if s.len() == 0 {
            fault == NumberFault::Empty
        } else {
            ||| fault == NumberFault::InvalidDigit
            ||| fault == NumberFault::TooLarge && number_ahead(s, '+') > usize::MAX
        },
    }
}

/// Why a text is no `i64`. A number is too large or too small. An empty text is empty. Any other
/// text has an invalid digit; where the digits before it stand for a number that is out of range
/// already, that may be the fault that is told.
pub open spec fn i64_fault(s: Seq<char>, fault: NumberFault) -> bool {
    match signed_in(s) {
        Some(n) => fault == if n > 0 {
            NumberFault::TooLarge
        } else {
            NumberFault::TooSmall
        },
        None => if s.len() == 0 {
            fault == NumberFault::Empty
        } else {
            ||| fault == NumberFault::InvalidDigit
            ||| fault == NumberFault::TooLarge && !starts(s, '-') && number_ahead(s, '+')
                > i64::MAX
            ||| fault == NumberFault::TooSmall && starts(s, '-') && -(number_ahead(s, '-') as int)
                < i64::MIN
        },
    }
}

/// `str::parse` to a `usize` takes digits, which may follow a plus sign, if the number is in range,
/// and refuses every other text. The kind of its error is `Empty` for the empty text,
/// `PosOverflow` for a number beyond the range, and `InvalidDigit` for a text that holds anything
/// else. Which kind comes is left open for a text that holds something else behind digits that
/// are out of range already.
#[verifier::external_body]
pub(crate) fn parse_usize(s: &str) -> (n: Result<usize, NumberFault>)
    ensures
        match n {
            Ok(n) => usize_in(s@) == Some(n),
            Err(fault) => usize_in(s@) is None && usize_fault(s@, fault),
        },
{
    match s.parse::<usize>() {
        Ok(n) => Ok(n),
        Err(e) => Err(match e.kind() {
            std::num::IntErrorKind::Empty => NumberFault::Empty,
            std::num::IntErrorKind::PosOverflow => NumberFault::TooLarge,
            std::num::IntErrorKind::NegOverflow => NumberFault::TooSmall,
            _ => NumberFault::InvalidDigit,
        }),
    }
}

/// `str::parse` to an `i64` takes digits, which may follow a plus or a minus sign, if the number
/// is in range, and refuses every other text. The kind of its error is `Empty` for the empty text,
/// `PosOverflow` or `NegOverflow` for a number beyond the range, and `InvalidDigit` for a text
/// that holds anything else. Which kind comes is left open for a text that holds something else
/// behind digits that are out of range already.
#[verifier::external_body]
pub(crate) fn parse_i64(s: &str) -> (n: Result<i64, NumberFault>)
    ensures
        match n {
            Ok(n) => i64_in(s@) == Some(n),
            Err(fault) => i64_in(s@) is None && i64_fault(s@, fault),
        },
{
    match s.parse::<i64>() {
        Ok(n) => Ok(n),
        Err(e) => Err(match e.kind() {
            std::num::IntErrorKind::Empty => NumberFault::Empty,
            std::num::IntErrorKind::PosOverflow => NumberFault::TooLarge,
            std::num::IntErrorKind::NegOverflow => NumberFault::TooSmall,
            _ => NumberFault::InvalidDigit,
        }),
    }
}

/// The decimal digit `d` is a digit and stands for `d`.
proof fn digit_value(d: nat)
    requires
        d < 10,
    ensures
        is_digit(digit(d)),
        digit(d) as int - '0' as int == d,
{
    reveal_strlit("0123456789");
}

/// A number in decimal is made of digits and stands for that number.
pub proof fn decimal_stands_for_number(n: nat)
    ensures
        all_digits(decimal(n)),
        value_of(decimal(n)) == n,
        unsigned_in(decimal(n)) == Some(n),
        signed_in(decimal(n)) == Some(n as int),
    decreases n,
{
    let text = decimal(n);
    if n < 10 {
        digit_value(n);
        assert(text.drop_last() =~= Seq::empty());
        assert(value_of(text.drop_last()) == 0);
    } else {
        decimal_stands_for_number(n / 10);
        digit_value(n % 10);
        assert(text.drop_last() =~= decimal(n / 10));
    }
    assert(is_digit(text[0]));
}

/// A signed number in decimal stands for that number.
pub proof fn signed_decimal_stands_for_number(n: int)
    ensures
        signed_in(signed_decimal(n)) == Some(n),
{
    if n < 0 {
        decimal_stands_for_number((-n) as nat);
        assert(signed_decimal(n).skip(1) =~= decimal((-n) as nat));
    } else {
        decimal_stands_for_number(n as nat);
    }
}

/// A number in decimal does not start with a zero, unless it is zero.
pub proof fn decimal_has_no_leading_zero(n: nat)
    ensures
        decimal(n).len() > 0,
        n > 0 ==> decimal(n)[0] != '0',
        n == 0 ==> decimal(n) == seq!['0'],
    decreases n,
{
    reveal_strlit("0123456789");
    if n >= 10 {
        decimal_has_no_leading_zero(n / 10);
        assert(decimal(n)[0] == decimal(n / 10)[0]);
    } else {
        digit_value(n);
        assert(decimal(n)[0] == digit(n));
        if n == 0 {
            assert(decimal(n) =~= seq!['0']);
        }
    }
}

} // verus!
