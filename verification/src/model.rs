//! What a line means: how its words resolve to tokens, what each token does
//! to the stack, and what a whole line does to a machine.

use vstd::prelude::*;
use crate::arith::{quotient, remainder, wrap};
use crate::error::Fault;
use crate::number::{decimal, literal};
use crate::text::{is_scalar, words};
use crate::word::{primitive, Token, Word};

verus! {

/// A machine as a mathematical value: the body of every defined word, and
/// the stack with its top at the end.
pub struct MachineState {
    pub dictionary: Map<Seq<char>, Seq<Token>>,
    pub stack: Seq<i32>,
}

/// The stack after some work, and either the text that the work wrote or
/// the fault that stopped it.
pub struct Outcome {
    pub stack: Seq<i32>,
    pub result: Result<Seq<char>, Fault>,
}

/// The dictionary that a new machine starts with: `space` and `cr` write a
/// space and a line end, `over` copies the second number from the top onto
/// the top.
pub open spec fn bootstrap() -> Map<Seq<char>, Seq<Token>> {
    Map::<Seq<char>, Seq<Token>>::empty().insert(
        "space"@,
        seq![Token::Number(32), Token::Builtin(Word::Emit)],
    ).insert(
        "cr"@,
        seq![
            Token::Number(13),
            Token::Builtin(Word::Emit),
            Token::Number(10),
            Token::Builtin(Word::Emit),
        ],
    ).insert(
        "over"@,
        seq![
            Token::Builtin(Word::Swap),
            Token::Builtin(Word::Dup),
            Token::Builtin(Word::Rot),
            Token::Builtin(Word::Swap),
        ],
    )
}

/// `n` spaces; none where `n` is negative.
pub open spec fn blanks(n: int) -> Seq<char> {
    Seq::new(
        if n < 0 {
            0
        } else {
            n as nat
        },
        |i: int| ' ',
    )
}

/// The tokens that one word stands for: a primitive where it spells one,
/// else a number where it is a literal, else the body it has in the
/// dictionary.
pub open spec fn resolve_word(dictionary: Map<Seq<char>, Seq<Token>>, word: Seq<char>) -> Option<
    Seq<Token>,
> {
    if primitive(word) is Some {
        Some(seq![Token::Builtin(primitive(word)->0)])
    } else if literal(word) is Some {
        Some(seq![Token::Number(literal(word)->0)])
    } else if dictionary.contains_key(word) {
        Some(dictionary[word])
    } else {
        None
    }
}

/// The tokens of a list of words, each word's tokens in place of the word,
/// or the first word that stands for nothing.
pub open spec fn resolve(dictionary: Map<Seq<char>, Seq<Token>>, list: Seq<Seq<char>>) -> Result<
    Seq<Token>,
    Fault,
>
    decreases list.len(),
{
    if list.len() == 0 {
        Ok(Seq::empty())
    } else {
        match resolve_word(dictionary, list[0]) {
            None => Err(Fault::UndefinedWord(list[0])),
            Some(head) => match resolve(dictionary, list.drop_first()) {
                Err(fault) => Err(fault),
                Ok(tail) => Ok(head + tail),
            },
        }
    }
}

/// How many operands a primitive takes from the stack.
pub open spec fn arity(w: Word) -> nat {
    match w {
        Word::Dot | Word::Drop | Word::Dup | Word::Emit | Word::Spaces => 1,
        Word::Minus | Word::Mod | Word::Plus | Word::Slash | Word::SlashMod | Word::Star
        | Word::Swap => 2,
        Word::Rot => 3,
    }
}

/// A step that wrote nothing and left the stack as `stack`.
pub open spec fn silent(stack: Seq<i32>) -> Outcome {
    Outcome { stack, result: Ok(Seq::empty()) }
}

/// What a primitive does to the stack `s`.
///
/// With too few operands it fails. `rot` looks before it takes anything and
/// leaves the stack as it was; every other primitive takes its operands one
/// by one, so what was there is gone. A division by zero, and an `emit` of
/// what is no scalar value, fail after the operands were taken. Sums,
/// differences, products and quotients wrap around. `spaces` with a negative
/// count writes no space. Whatever is written is followed by one space.
pub open spec fn perform(w: Word, s: Seq<i32>) -> Outcome {
    let n = s.len() as int;
    if n < arity(w) {
        Outcome {
            stack: if w == Word::Rot {
                s
            } else {
                Seq::empty()
            },
            result: Err(Fault::StackUnderflow(w)),
        }
    } else {
        match w {
            Word::Dot => Outcome {
                stack: s.drop_last(),
                result: Ok(decimal(s[n - 1] as int) + seq![' ']),
            },
            Word::Drop => silent(s.drop_last()),
            Word::Dup => silent(s.push(s[n - 1])),
            Word::Emit => if is_scalar(s[n - 1] as int) {
                Outcome { stack: s.drop_last(), result: Ok(seq![s[n - 1] as char, ' ']) }
            } else {
                Outcome { stack: s.drop_last(), result: Err(Fault::InvalidCodePoint(s[n - 1])) }
            },
            Word::Spaces => Outcome {
                stack: s.drop_last(),
                result: Ok(blanks(s[n - 1] as int) + seq![' ']),
            },
            Word::Plus => silent(s.take(n - 2).push(wrap(s[n - 2] + s[n - 1]))),
            Word::Minus => silent(s.take(n - 2).push(wrap(s[n - 2] - s[n - 1]))),
            Word::Star => silent(s.take(n - 2).push(wrap(s[n - 2] * s[n - 1]))),
            Word::Slash | Word::Mod | Word::SlashMod => if s[n - 1] == 0 {
                Outcome { stack: s.take(n - 2), result: Err(Fault::DivisionByZero(w)) }
            } else if w == Word::Slash {
                silent(s.take(n - 2).push(wrap(quotient(s[n - 2] as int, s[n - 1] as int))))
            } else if w == Word::Mod {
                silent(s.take(n - 2).push(wrap(remainder(s[n - 2] as int, s[n - 1] as int))))
            } else {
                silent(
                    s.take(n - 2).push(wrap(remainder(s[n - 2] as int, s[n - 1] as int))).push(
                        wrap(quotient(s[n - 2] as int, s[n - 1] as int)),
                    ),
                )
            },
            Word::Rot => silent(s.remove(n - 3).push(s[n - 3])),
            Word::Swap => silent(s.take(n - 2).push(s[n - 1]).push(s[n - 2])),
        }
    }
}

/// What one token does to the stack `s`: a number is pushed, a primitive is
/// performed.
pub open spec fn apply(token: Token, s: Seq<i32>) -> Outcome {
    match token {
        Token::Number(n) => silent(s.push(n)),
        Token::Builtin(w) => perform(w, s),
    }
}

/// What a list of tokens does to the stack `s`, from the first token on. It
/// stops at the first token that fails, with the stack as that token left
/// it; else it gives all that was written, in order.
pub open spec fn run(s: Seq<i32>, tokens: Seq<Token>) -> Outcome
    decreases tokens.len(),
{
    if tokens.len() == 0 {
        silent(s)
    } else {
        let first = apply(tokens[0], s);
        match first.result {
            Err(_) => first,
            Ok(text) => after(text, run(first.stack, tokens.drop_first())),
        }
    }
}

/// `outcome` with `text` before what it wrote.
pub open spec fn after(text: Seq<char>, outcome: Outcome) -> Outcome {
    Outcome {
        stack: outcome.stack,
        result: match outcome.result {
            Ok(more) => Ok(text + more),
            Err(fault) => Err(fault),
        },
    }
}

/// A machine after a line, with what the line gave.
pub struct Answer {
    pub state: MachineState,
    pub result: Result<Seq<char>, Fault>,
}

/// What an expression does: its words are resolved, then run on the stack.
/// Where a word stands for nothing, nothing is run.
pub open spec fn evaluate(m: MachineState, line: Seq<char>) -> Answer {
    match resolve(m.dictionary, words(line)) {
        Err(fault) => Answer { state: m, result: Err(fault) },
        Ok(tokens) => Answer {
            state: MachineState { dictionary: m.dictionary, stack: run(m.stack, tokens).stack },
            result: run(m.stack, tokens).result,
        },
    }
}

/// What a definition does, given the text after its marker: the first word
/// is the name, and the tokens of the others, resolved now, become its body.
/// It writes nothing and leaves the stack alone.
pub open spec fn define(m: MachineState, text: Seq<char>) -> Answer {
    if words(text).len() == 0 {
        Answer { state: m, result: Err(Fault::MalformedDefinition) }
    } else {
        match resolve(m.dictionary, words(text).drop_first()) {
            Err(fault) => Answer { state: m, result: Err(fault) },
            Ok(tokens) => Answer {
                state: MachineState {
                    dictionary: m.dictionary.insert(words(text)[0], tokens),
                    stack: m.stack,
                },
                result: Ok(Seq::empty()),
            },
        }
    }
}

/// Whether a line is a definition: it begins with `:`.
pub open spec fn is_definition(line: Seq<char>) -> bool {
    line.len() > 0 && line[0] == ':'
}

/// What a line does: a definition is taken, without its marker; any other
/// line is an expression.
pub open spec fn interpret(m: MachineState, line: Seq<char>) -> Answer {
    if is_definition(line) {
        define(m, line.skip(1))
    } else {
        evaluate(m, line)
    }
}

} // verus!
