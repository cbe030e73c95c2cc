//! Telling numbers and operators apart.
//!
//! A word is a number where it is an optional sign, `+` or `-`, followed by one
//! or more of the digits `0` to `9`, and the value so written fits in an `i32`.
//! It is an operator where it is one of the single characters `+ - * / %`.
//! Any other word is no token.

use crate::arith::Operator;
use vstd::prelude::*;

verus! {

/// What a word of the line stands for.
#[derive(Clone, Copy, Debug, PartialEq, Eq, Structural)]
pub enum Token {
    /// An integer to push.
    Number(i32),
    /// An operator to apply to the two numbers last pushed.
    Operator(Operator),
}

/// Whether `c` is one of the digits `0` to `9`.
pub open spec fn is_digit(c: char) -> bool {
    '0' <= c <= '9'
}

/// Whether `s` holds digits only.
pub open spec fn all_digits(s: Seq<char>) -> bool {
    forall|i: int| 0 <= i < s.len() ==> is_digit(#[trigger] s[i])
}

/// The number that the digit `c` stands for.
pub open spec fn digit_value(c: char) -> int {
    c as int - '0' as int
}

/// The number that the digits `s` write in base ten; 0 for no digits.
pub open spec fn decimal(s: Seq<char>) -> int
    decreases s.len(),
{
    if s.len() == 0 {
        0
    } else {
        10 * decimal(s.drop_last()) + digit_value(s.last())
    }
}

/// Whether `text` begins with a sign.
pub open spec fn has_sign(text: Seq<char>) -> bool {
    text.len() > 0 && (text[0] == '-' || text[0] == '+')
}

/// What follows the sign of `text`, or all of `text` where it has no sign.
pub open spec fn unsigned_part(text: Seq<char>) -> Seq<char> {
    if has_sign(text) {
        text.skip(1)
    } else {
        text
    }
}

/// The integer that `text` writes, however large, or `None` where `text` is
/// not an optional sign followed by at least one digit and nothing else.
pub open spec fn integer_of(text: Seq<char>) -> Option<int> {
    let digits = unsigned_part(text);
    if digits.len() == 0 || !all_digits(digits) {
        None
    } else if text[0] == '-' {
        Some(-decimal(digits))
    } else {
        Some(decimal(digits))
    }
}

/// The number that `text` writes, or `None` where it writes none or one that
/// does not fit in an `i32`.
pub open spec fn number_of(text: Seq<char>) -> Option<i32> {
    match integer_of(text) {
        Some(v) => if i32::MIN <= v <= i32::MAX {
            Some(v as i32)
        } else {
            None
        },
        None => None,
    }
}

/// The operator that `text` names, or `None` where it names none.
pub open spec fn operator_of(text: Seq<char>) -> Option<Operator> {
    if text.len() != 1 {
        None
    } else if text[0] == '+' {
        Some(Operator::Add)
    } else if text[0] == '-' {
        Some(Operator::Sub)
    } else if text[0] == '*' {
        Some(Operator::Mul)
    } else if text[0] == '/' {
        Some(Operator::Div)
    } else if text[0] == '%' {
        Some(Operator::Rem)
    } else {
        None
    }
}

/// The token that `text` stands for: a number where it writes one, else an
/// operator where it names one, else `None`.
pub open spec fn token_of(text: Seq<char>) -> Option<Token> {
    match number_of(text) {
        Some(n) => Some(Token::Number(n)),
        None => match operator_of(text) {
            Some(op) => Some(Token::Operator(op)),
            None => None,
        },
    }
}

/// Digits write a number that is not negative, and more digits never write a
/// smaller one.
pub proof fn lemma_decimal_grows(s: Seq<char>, k: int)
    requires
        all_digits(s),
        0 <= k <= s.len(),
    ensures
        0 <= decimal(s.take(k)) <= decimal(s),
    decreases s.len() - k,
{
    if k == s.len() {
        assert(s.take(k) =~= s);
        lemma_decimal_not_negative(s);
    } else {
        lemma_decimal_grows(s, k + 1);
        let longer = s.take(k + 1);
        assert(longer.drop_last() =~= s.take(k));
        assert(is_digit(s[k]) && longer.last() == s[k]);
    }
}

/// Digits write a number that is not negative.
proof fn lemma_decimal_not_negative(s: Seq<char>)
    requires
        all_digits(s),
    ensures
        0 <= decimal(s),
    decreases s.len(),
{
    if s.len() > 0 {
        let init = s.drop_last();
        assert forall|i: int| 0 <= i < init.len() implies is_digit(#[trigger] init[i]) by {
            assert(init[i] == s[i]);
        }
        lemma_decimal_not_negative(init);
        assert(is_digit(s.last()));
    }
}

/// A word cannot both write a number and name an operator.
pub proof fn lemma_number_is_no_operator(text: Seq<char>)
    ensures
        !(number_of(text) is Some && operator_of(text) is Some),
{
    if operator_of(text) is Some {
        let digits = unsigned_part(text);
        if digits.len() > 0 {
            assert(!is_digit(digits[0]));
        }
    }
}

/// Reads the number that `text` writes.
pub fn parse_number(text: &[char]) -> (r: Option<i32>)
    ensures
        r == number_of(text@),
{
    let n = text.len();
    if n == 0 {
        return None;
    }
    let negative = text[0] == '-';
    let start: usize = if text[0] == '-' || text[0] == '+' {
        1
    } else {
        0
    };
    if start == n {
        return None;
    }
    let ghost digits = unsigned_part(text@);
    let mut value: i64 = 0;
    let mut i: usize = start;
    while i < n
        invariant
            n == text@.len(),
            start <= i <= n,
            digits == unsigned_part(text@),
            digits == text@.skip(start as int),
            negative == (text@[0] == '-'),
            all_digits(digits.take(i - start)),
            value == decimal(digits.take(i - start)),
            0 <= value <= 0x8000_0000,
        decreases n - i,
    {
        let c = text[i];
        if !('0' <= c && c <= '9') {
            assert(!is_digit(digits[i - start]));
            return None;
        }
        let d: i64 = (c as u32 - '0' as u32) as i64;
        let ghost shorter = digits.take(i - start);
        let ghost longer = digits.take(i - start + 1);
        proof {
            assert(longer.drop_last() =~= shorter);
            assert(longer.last() == c);
            assert forall|j: int| 0 <= j < longer.len() implies is_digit(#[trigger] longer[j]) by {
                if j < shorter.len() {
                    assert(longer[j] == shorter[j]);
                }
            }
        }
        value = value * 10 + d;
        if value > 0x8000_0000 {
            proof {
                if all_digits(digits) {
                    lemma_decimal_grows(digits, i - start + 1);
                }
            }
            return None;
        }
        i = i + 1;
    }
    assert(digits.take(i - start) =~= digits);
    if negative {
        Some((-value) as i32)
    } else if value > 0x7fff_ffff {
        None
    } else {
        Some(value as i32)
    }
}

/// Reads the operator that `text` names.
pub fn parse_operator(text: &[char]) -> (r: Option<Operator>)
    ensures
        r == operator_of(text@),
{
    if text.len() != 1 {
        return None;
    }
    let c = text[0];
    if c == '+' {
        Some(Operator::Add)
    } else if c == '-' {
        Some(Operator::Sub)
    } else if c == '*' {
        Some(Operator::Mul)
    } else if c == '/' {
        Some(Operator::Div)
    } else if c == '%' {
        Some(Operator::Rem)
    } else {
        None
    }
}

/// Reads the token that `text` stands for.
pub fn lex(text: &[char]) -> (r: Option<Token>)
    ensures
        r == token_of(text@),
{
    match parse_number(text) {
        Some(n) => Some(Token::Number(n)),
        None => match parse_operator(text) {
            Some(op) => Some(Token::Operator(op)),
            None => None,
        },
    }
}

} // verus!
