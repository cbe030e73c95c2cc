//! The stack machine that evaluates a line.
//!
//! The words of the line are read from left to right. A number is pushed on
//! the stack. Any other word takes the two numbers last pushed off the stack,
//! the right operand first, and where the word names an operator, the result
//! takes their place. When all words are read, the one number on the stack is
//! the value of the line.
//!
//! A position is the place of a word in the line, counted from 1.

use crate::arith::Operator;
use crate::lexer::{split_whitespace, split_words, texts};
use crate::text::string_of;
use crate::token::{lex, token_of, Token};
use vstd::prelude::*;

verus! {

/// Why a line has no value.
#[derive(Clone, Debug, PartialEq, Eq)]
pub enum EvalError {
    /// The word at `position` found fewer than two numbers on the stack, or
    /// the line ended, after `position` words, with no number on the stack or
    /// with more than one.
    InvalidSyntax { position: usize },
    /// The word at `position` is neither a number nor an operator.
    InvalidToken { position: usize, token: String },
    /// The word at `position` divides by zero.
    DivisionByZero { position: usize },
}

/// What an `EvalError` says, as contracts speak of it.
pub enum Failure {
    InvalidSyntax { position: nat },
    InvalidToken { position: nat, token: Seq<char> },
    DivisionByZero { position: nat },
}

impl View for EvalError {
    type V = Failure;

    open spec fn view(&self) -> Failure {
        match *self {
            EvalError::InvalidSyntax { position } => Failure::InvalidSyntax {
                position: position as nat,
            },
            EvalError::InvalidToken { position, token } => Failure::InvalidToken {
                position: position as nat,
                token: token@,
            },
            EvalError::DivisionByZero { position } => Failure::DivisionByZero {
                position: position as nat,
            },
        }
    }
}

/// What a result of the calculator says, as contracts speak of it.
pub open spec fn outcome(r: Result<i32, EvalError>) -> Result<i32, Failure> {
    match r {
        Ok(v) => Ok(v),
        Err(e) => Err(e@),
    }
}

/// The stack after the word `text`, which stands at `position`, is read with
/// `stack` on the stack.
pub open spec fn step(stack: Seq<i32>, text: Seq<char>, position: nat) -> Result<
    Seq<i32>,
    Failure,
> {
    match token_of(text) {
        Some(Token::Number(n)) => Ok(stack.push(n)),
        other => if stack.len() < 2 {
            Err(Failure::InvalidSyntax { position })
        } else {
            let x = stack[stack.len() - 2];
            let y = stack[stack.len() - 1];
            match other {
                Some(Token::Operator(op)) => match op.result(x, y) {
                    Some(v) => Ok(stack.take(stack.len() - 2).push(v)),
                    None => Err(Failure::DivisionByZero { position }),
                },
                _ => Err(Failure::InvalidToken { position, token: text }),
            }
        },
    }
}

/// The stack after the first `n` of `words` are read, starting from an empty
/// stack, or the failure of the first word among them that fails.
pub open spec fn run(words: Seq<Seq<char>>, n: nat) -> Result<Seq<i32>, Failure>
    decreases n,
{
    if n == 0 {
        Ok(Seq::empty())
    } else {
        match run(words, (n - 1) as nat) {
            Ok(stack) => step(stack, words[n - 1], n),
            Err(failure) => Err(failure),
        }
    }
}

/// The value of a line of `count` words that leaves `stack` behind.
pub open spec fn finish(stack: Seq<i32>, count: nat) -> Result<i32, Failure> {
    if stack.len() == 1 {
        Ok(stack[0])
    } else {
        Err(Failure::InvalidSyntax { position: count })
    }
}

/// The value of the line made of `words`.
pub open spec fn evaluate_words(words: Seq<Seq<char>>) -> Result<i32, Failure> {
    match run(words, words.len()) {
        Ok(stack) => finish(stack, words.len()),
        Err(failure) => Err(failure),
    }
}

/// The value of `line`.
pub open spec fn evaluate(line: Seq<char>) -> Result<i32, Failure> {
    evaluate_words(split_words(line))
}

/// How many of the first `n` of `words` are read before one fails.
pub open spec fn consumed(words: Seq<Seq<char>>, n: nat) -> nat
    decreases n,
{
    if n == 0 || run(words, n) is Ok {
        n
    } else {
        consumed(words, (n - 1) as nat)
    }
}

/// The state of the machine after a word was read.
#[derive(Clone, Debug, PartialEq, Eq)]
pub struct Snapshot {
    /// The position of the word last read.
    pub position: usize,
    /// The stack, the number last pushed at its end.
    pub stack: Vec<i32>,
}

/// Whether `trace` holds, in order, the state after each word of `words` that
/// was read without failure, and nothing else.
pub open spec fn is_trace(trace: Seq<Snapshot>, words: Seq<Seq<char>>) -> bool {
    &&& trace.len() == consumed(words, words.len())
    &&& forall|k: int|
        0 <= k < trace.len() ==> (#[trigger] trace[k]).position == k + 1 && run(
            words,
            (k + 1) as nat,
        ) == Ok::<Seq<i32>, Failure>(trace[k].stack@)
}

/// What an evaluation gives back.
#[derive(Debug, PartialEq, Eq)]
pub struct Evaluation {
    /// The value of the line, or why it has none.
    pub result: Result<i32, EvalError>,
    /// The state after each word, for a verbose calculator; else empty.
    pub trace: Vec<Snapshot>,
}

/// Once a word has failed, reading on changes nothing: the failure stays, and
/// the words read without failure are those before the first that failed.
pub proof fn lemma_failure_stays(words: Seq<Seq<char>>, n: nat, m: nat)
    requires
        n <= m,
        run(words, n) is Err,
    ensures
        run(words, m) == run(words, n),
        consumed(words, m) == consumed(words, n),
        n > 0 && run(words, (n - 1) as nat) is Ok ==> consumed(words, m) == n - 1,
    decreases m,
{
    if n < m {
        lemma_failure_stays(words, n, (m - 1) as nat);
    } else if n > 0 && run(words, (n - 1) as nat) is Ok {
        assert(consumed(words, (n - 1) as nat) == n - 1);
    }
}

/// A calculator for lines in reverse Polish notation.
pub struct RpnCalculator(bool);

impl RpnCalculator {
    /// Whether the calculator records the state after each word.
    pub closed spec fn is_verbose(&self) -> bool {
        self.0
    }

    /// A calculator that records the state after each word if `verbose` is
    /// set, and only computes the value if not.
    pub fn new(verbose: bool) -> (calc: Self)
        ensures
            calc.is_verbose() == verbose,
    {
        Self(verbose)
    }

    /// Whether the calculator records the state after each word.
    pub fn verbose(&self) -> (b: bool)
        ensures
            b == self.is_verbose(),
    {
        self.0
    }

    /// The value of `formula`, or why it has none.
    pub fn eval(&self, formula: &str) -> (r: Result<i32, EvalError>)
        ensures
            outcome(r) == evaluate(formula@),
    {
        let tokens = split_whitespace(formula);
        self.eval_inner(&tokens).result
    }

    /// The value of the line made of `tokens`, or why it has none, and for a
    /// verbose calculator the state after each word.
    pub fn eval_inner(&self, tokens: &Vec<Vec<char>>) -> (out: Evaluation)
        ensures
            outcome(out.result) == evaluate_words(texts(tokens@)),
            self.is_verbose() ==> is_trace(out.trace@, texts(tokens@)),
            !self.is_verbose() ==> out.trace@.len() == 0,
    {
        let ghost words = texts(tokens@);
        let count = tokens.len();
        let mut stack: Vec<i32> = Vec::new();
        let mut trace: Vec<Snapshot> = Vec::new();
        let mut pos: usize = 0;
        while pos < count
            invariant
                count == tokens@.len(),
                words == texts(tokens@),
                pos <= count,
                run(words, pos as nat) == Ok::<Seq<i32>, Failure>(stack@),
                !self.is_verbose() ==> trace@.len() == 0,
                self.is_verbose() ==> trace@.len() == pos,
                forall|k: int|
                    0 <= k < trace@.len() ==> (#[trigger] trace@[k]).position == k + 1 && run(
                        words,
                        (k + 1) as nat,
                    ) == Ok::<Seq<i32>, Failure>(trace@[k].stack@),
            decreases count - pos,
        {
            let text = tokens[pos].as_slice();
            assert(text@ == words[pos as int]);
            pos = pos + 1;
            let ghost before = stack@;
            match lex(text) {
                Some(Token::Number(n)) => {
                    stack.push(n);
                },
                other => {
                    if stack.len() < 2 {
                        proof {
                            lemma_failure_stays(words, pos as nat, count as nat);
                        }
                        return Evaluation {
                            result: Err(EvalError::InvalidSyntax { position: pos }),
                            trace,
                        };
                    }
                    let y = stack.pop().unwrap();
                    let x = stack.pop().unwrap();
                    assert(stack@ =~= before.take(before.len() - 2));
                    match other {
                        Some(Token::Operator(op)) => match op.apply(x, y) {
                            Some(v) => {
                                stack.push(v);
                            },
                            None => {
                                proof {
                                    lemma_failure_stays(words, pos as nat, count as nat);
                                }
                                return Evaluation {
                                    result: Err(EvalError::DivisionByZero { position: pos }),
                                    trace,
                                };
                            },
                        },
                        _ => {
                            proof {
                                lemma_failure_stays(words, pos as nat, count as nat);
                            }
                            return Evaluation {
                                result: Err(
                                    EvalError::InvalidToken {
                                        position: pos,
                                        token: string_of(text),
                                    },
                                ),
                                trace,
                            };
                        },
                    }
                },
            }
            if self.0 {
                let snapshot = Snapshot { position: pos, stack: stack.clone() };
                assert(snapshot.stack@ =~= stack@);
                trace.push(snapshot);
            }
        }
        if stack.len() == 1 {
            Evaluation { result: Ok(stack[0]), trace }
        } else {
            Evaluation { result: Err(EvalError::InvalidSyntax { position: pos }), trace }
        }
    }
}

} // verus!
