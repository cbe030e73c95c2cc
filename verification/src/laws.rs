//! What holds of every evaluation.

use crate::calculator::{evaluate, evaluate_words, outcome, run, EvalError, Failure};
use crate::lexer::split_words;
use crate::token::{token_of, Token};
use vstd::prelude::*;

verus! {

/// Whether `text` writes a number.
pub open spec fn is_number(text: Seq<char>) -> bool {
    token_of(text) is Some && token_of(text)->0 is Number
}

/// Whether `text` names an operator.
pub open spec fn is_operator(text: Seq<char>) -> bool {
    token_of(text) is Some && token_of(text)->0 is Operator
}

/// Whether `words` are `n` numbers, `n` at least one, followed by `n - 1`
/// operators and nothing else.
pub open spec fn operands_then_operators(words: Seq<Seq<char>>, n: nat) -> bool {
    &&& n >= 1
    &&& words.len() == 2 * n - 1
    &&& forall|i: int| 0 <= i < n ==> is_number(#[trigger] words[i])
    &&& forall|i: int| n <= i < words.len() ==> is_operator(#[trigger] words[i])
}

/// Whether `r` is a failure by division by zero.
pub open spec fn divides_by_zero<T>(r: Result<T, Failure>) -> bool {
    r is Err && r->Err_0 is DivisionByZero
}

/// A line has one value or one failure, whoever evaluates it and however
/// often: two results that each are what the calculator owes for `line` say the
/// same.
pub proof fn lemma_eval_repeats(
    line: Seq<char>,
    first: Result<i32, EvalError>,
    second: Result<i32, EvalError>,
)
    requires
        outcome(first) == evaluate(line),
        outcome(second) == evaluate(line),
    ensures
        outcome(first) == outcome(second),
        first is Ok <==> second is Ok,
        first is Ok ==> first->Ok_0 == second->Ok_0,
        first is Err ==> first->Err_0@ == second->Err_0@,
{
}

/// While `n` numbers and then `n - 1` operators are read, the stack holds as
/// many numbers as were read, less one for each operator read, unless an
/// operator has divided by zero.
proof fn lemma_stack_height(words: Seq<Seq<char>>, n: nat, k: nat)
    requires
        operands_then_operators(words, n),
        k <= words.len(),
    ensures
        divides_by_zero(run(words, k)) || (run(words, k) is Ok && run(words, k)->Ok_0.len() == (
        if k <= n {
            k as int
        } else {
            2 * n - k
        })),
    decreases k,
{
    if k > 0 {
        lemma_stack_height(words, n, (k - 1) as nat);
        if k <= n {
            assert(is_number(words[k - 1]));
        } else {
            assert(is_operator(words[k - 1]));
        }
    }
}

/// Numbers followed by one operator fewer have a value, unless one of the
/// operators divides by zero.
pub proof fn lemma_operands_then_operators(words: Seq<Seq<char>>, n: nat)
    requires
        operands_then_operators(words, n),
        !divides_by_zero(evaluate_words(words)),
    ensures
        evaluate_words(words) is Ok,
{
    lemma_stack_height(words, n, words.len());
}

/// A line of numbers followed by one operator fewer has a value, unless one of
/// the operators divides by zero.
pub proof fn lemma_well_formed_line(line: Seq<char>, n: nat)
    requires
        operands_then_operators(split_words(line), n),
        !divides_by_zero(evaluate(line)),
    ensures
        evaluate(line) is Ok,
{
    lemma_operands_then_operators(split_words(line), n);
}

} // verus!
