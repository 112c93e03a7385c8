//! The machine: a dictionary and a stack, and the functions that take a line
//! of text to them.

use vstd::prelude::*;
use vstd::hash_map::StringHashMap;
use crate::arith::{divide, minus, modulo, plus, times};
use crate::error::{Error, Fault};
use crate::model::{
    after, apply, blanks, bootstrap, define, evaluate, interpret, perform, resolve,
    resolve_word, run, silent, MachineState, Outcome,
};
use crate::number::{parse_literal, write_decimal};
use crate::text::{chars_of, split, texts, words};
use crate::word::{Token, Word};

verus! {

/// The bodies of a dictionary as sequences.
pub open spec fn bodies(dictionary: Map<Seq<char>, Vec<Token>>) -> Map<Seq<char>, Seq<Token>> {
    dictionary.map_values(|body: Vec<Token>| body@)
}

/// What a function that writes text gave, as a mathematical value.
pub open spec fn written(r: Result<String, Error>) -> Result<Seq<char>, Fault> {
    match r {
        Ok(text) => Ok(text@),
        Err(e) => Err(e@),
    }
}

/// What tokenizing gave, as a mathematical value.
pub open spec fn resolved(r: Result<Vec<Token>, Error>) -> Result<Seq<Token>, Fault> {
    match r {
        Ok(tokens) => Ok(tokens@),
        Err(e) => Err(e@),
    }
}

/// `r` with `tokens` before what it holds.
spec fn following(tokens: Seq<Token>, r: Result<Seq<Token>, Fault>) -> Result<Seq<Token>, Fault> {
    match r {
        Ok(more) => Ok(tokens + more),
        Err(fault) => Err(fault),
    }
}

/// Takes the top of the stack, on behalf of the primitive `w`.
fn pop<'a>(stack: &mut Vec<i32>, w: Word) -> (r: Result<i32, Error<'a>>)
    ensures
        match r {
            Ok(v) => {
                &&& old(stack)@.len() > 0
                &&& v == old(stack)@.last()
                &&& final(stack)@ == old(stack)@.drop_last()
            },
            Err(e) => {
                &&& old(stack)@.len() == 0
                &&& e == Error::StackUnderflow(w)
                &&& final(stack)@ == old(stack)@
            },
        },
{
    match stack.pop() {
        Some(v) => Ok(v),
        None => Err(Error::StackUnderflow(w)),
    }
}

/// Performs the primitive `w` on `stack`, and adds what it writes to `out`.
pub fn execute_word<'a>(w: Word, stack: &mut Vec<i32>, out: &mut String) -> (r: Result<
    (),
    Error<'a>,
>)
    ensures
        final(stack)@ == perform(w, old(stack)@).stack,
        match perform(w, old(stack)@).result {
            Ok(text) => r is Ok && final(out)@ == old(out)@ + text,
            Err(fault) => r is Err && r->Err_0@ == fault && final(out)@ == old(out)@,
        },
{
    let ghost s = stack@;
    match w {
        Word::Dot => {
            let v = pop(stack, w)?;
            write_decimal(out, v);
            out.push(' ');
        },
        Word::Drop => {
            pop(stack, w)?;
        },
        Word::Dup => {
            let len = stack.len();
            if len == 0 {
                return Err(Error::StackUnderflow(w));
            }
            let v = stack[len - 1];
            stack.push(v);
        },
        Word::Emit => {
            let v = pop(stack, w)?;
            if v < 0 {
                return Err(Error::InvalidCodePoint(v));
            }
            match char::from_u32(v as u32) {
                Some(c) => {
                    out.push(c);
                    out.push(' ');
                },
                None => {
                    return Err(Error::InvalidCodePoint(v));
                },
            }
        },
        Word::Spaces => {
            let count = pop(stack, w)?;
            let mut i: i32 = 0;
            assert(out@ =~= old(out)@ + blanks(0));
            while i < count
                invariant
                    0 <= i,
                    i <= count || i == 0,
                    out@ == old(out)@ + blanks(i as int),
                decreases count - i,
            {
                out.push(' ');
                assert(out@ =~= old(out)@ + blanks(i + 1));
                i += 1;
            }
            assert(blanks(i as int) =~= blanks(count as int));
            out.push(' ');
        },
        Word::Plus => {
            let b = pop(stack, w)?;
            let a = pop(stack, w)?;
            stack.push(plus(a, b));
        },
        Word::Minus => {
            let b = pop(stack, w)?;
            let a = pop(stack, w)?;
            stack.push(minus(a, b));
        },
        Word::Star => {
            let b = pop(stack, w)?;
            let a = pop(stack, w)?;
            stack.push(times(a, b));
        },
        Word::Slash => {
            let b = pop(stack, w)?;
            let a = pop(stack, w)?;
            if b == 0 {
                return Err(Error::DivisionByZero(w));
            }
            stack.push(divide(a, b));
        },
        Word::Mod => {
            let b = pop(stack, w)?;
            let a = pop(stack, w)?;
            if b == 0 {
                return Err(Error::DivisionByZero(w));
            }
            stack.push(modulo(a, b));
        },
        Word::SlashMod => {
            let b = pop(stack, w)?;
            let a = pop(stack, w)?;
            if b == 0 {
                return Err(Error::DivisionByZero(w));
            }
            stack.push(modulo(a, b));
            stack.push(divide(a, b));
        },
        Word::Rot => {
            let len = stack.len();
            if len < 3 {
                return Err(Error::StackUnderflow(w));
            }
            let third = stack.remove(len - 3);
            stack.push(third);
        },
        Word::Swap => {
            let a = pop(stack, w)?;
            let b = pop(stack, w)?;
            stack.push(a);
            stack.push(b);
        },
    }
    assert(out@ =~= old(out)@ + perform(w, s).result->Ok_0);
    Ok(())
}

/// Does what `token` asks on `stack`, and adds what it writes to `out`.
pub fn execute_token<'a>(token: Token, stack: &mut Vec<i32>, out: &mut String) -> (r: Result<
    (),
    Error<'a>,
>)
    ensures
        final(stack)@ == apply(token, old(stack)@).stack,
        match apply(token, old(stack)@).result {
            Ok(text) => r is Ok && final(out)@ == old(out)@ + text,
            Err(fault) => r is Err && r->Err_0@ == fault && final(out)@ == old(out)@,
        },
{
    match token {
        Token::Number(n) => {
            stack.push(n);
            assert(out@ =~= old(out)@ + Seq::<char>::empty());
            Ok(())
        },
        Token::Builtin(w) => execute_word(w, stack, out),
    }
}

/// Nothing written before an outcome leaves the outcome as it is.
proof fn lemma_after_nothing(outcome: Outcome)
    ensures
        after(Seq::empty(), outcome) == outcome,
{
    if let Ok(more) = outcome.result {
        assert(Seq::<char>::empty() + more =~= more);
    }
}

/// Running the tokens from the `i`-th on is doing the `i`-th, and where it
/// succeeds, running those behind it.
proof fn lemma_run_step(s: Seq<i32>, tokens: Seq<Token>, i: int, out: Seq<char>)
    requires
        0 <= i < tokens.len(),
    ensures
        after(out, run(s, tokens.skip(i))) == (match apply(tokens[i], s).result {
            Err(fault) => Outcome { stack: apply(tokens[i], s).stack, result: Err(fault) },
            Ok(text) => after(out + text, run(apply(tokens[i], s).stack, tokens.skip(i + 1))),
        }),
{
    let rest = tokens.skip(i);
    let first = apply(tokens[i], s);
    assert(rest[0] == tokens[i]);
    assert(rest.drop_first() =~= tokens.skip(i + 1));
    if let Ok(text) = first.result {
        if let Ok(more) = run(first.stack, tokens.skip(i + 1)).result {
            assert(out + (text + more) =~= (out + text) + more);
        }
    }
}

/// A dictionary of defined words and a stack of numbers. Both last from one
/// line to the next.
pub struct Machine {
    dictionary: StringHashMap<Vec<Token>>,
    stack: Vec<i32>,
}

impl View for Machine {
    type V = MachineState;

    closed spec fn view(&self) -> MachineState {
        MachineState { dictionary: bodies(self.dictionary@), stack: self.stack@ }
    }
}

impl Machine {
    /// A machine with the given dictionary and an empty stack.
    pub fn with_dictionary(dictionary: StringHashMap<Vec<Token>>) -> (m: Self)
        ensures
            m@ == (MachineState { dictionary: bodies(dictionary@), stack: Seq::empty() }),
    {
        Machine { dictionary, stack: Vec::new() }
    }

    /// The stack, its top at the end.
    pub fn stack(&self) -> (r: &Vec<i32>)
        ensures
            r@ == self@.stack,
    {
        &self.stack
    }

    /// The body that `name` has in the dictionary, if it has one.
    pub fn definition(&self, name: &str) -> (r: Option<&Vec<Token>>)
        ensures
            match r {
                Some(body) => self@.dictionary.contains_key(name@) && body@
                    == self@.dictionary[name@],
                None => !self@.dictionary.contains_key(name@),
            },
    {
        self.dictionary.get(name)
    }

    /// Resolves a list of words to tokens, against the dictionary as it is
    /// now. Fails at the first word that is no primitive, no number and not
    /// in the dictionary.
    pub fn tokenize<'a>(&self, list: &[&'a str]) -> (r: Result<Vec<Token>, Error<'a>>)
        ensures
            resolved(r) == resolve(self@.dictionary, texts(list@)),
    {
        let ghost all = texts(list@);
        let ghost dictionary = self@.dictionary;
        let mut tokens: Vec<Token> = Vec::new();
        let mut i: usize = 0;
        assert(all.skip(0) =~= all);
        assert(following(tokens@, resolve(dictionary, all)) == resolve(dictionary, all)) by {
            if let Ok(more) = resolve(dictionary, all) {
                assert(tokens@ + more =~= more);
            }
        }
        while i < list.len()
            invariant
                i <= list.len(),
                all == texts(list@),
                dictionary == self@.dictionary,
                following(tokens@, resolve(dictionary, all.skip(i as int))) == resolve(
                    dictionary,
                    all,
                ),
            decreases list.len() - i,
        {
            let word = list[i];
            let chars = chars_of(word);
            let ghost before = tokens@;
            let ghost rest = all.skip(i as int);
            assert(rest[0] == word@);
            assert(rest.drop_first() =~= all.skip(i + 1));
            match Word::parse(chars.as_slice()) {
                Some(w) => {
                    tokens.push(Token::Builtin(w));
                },
                None => match parse_literal(chars.as_slice()) {
                    Some(n) => {
                        tokens.push(Token::Number(n));
                    },
                    None => match self.dictionary.get(word) {
                        Some(body) => {
                            let mut k: usize = 0;
                            while k < body.len()
                                invariant
                                    k <= body.len(),
                                    tokens@ == before + body@.take(k as int),
                                decreases body.len() - k,
                            {
                                tokens.push(body[k]);
                                assert(body@.take(k + 1) =~= body@.take(k as int).push(
                                    body@[k as int],
                                ));
                                k += 1;
                            }
                            assert(body@.take(k as int) =~= body@);
                        },
                        None => {
                            return Err(Error::UndefinedWord(word));
                        },
                    },
                },
            }
            proof {
                let head = resolve_word(dictionary, word@)->0;
                assert(tokens@ =~= before + head);
                if let Ok(more) = resolve(dictionary, all.skip(i + 1)) {
                    assert(tokens@ + more =~= before + (head + more));
                }
            }
            i += 1;
        }
        assert(tokens@ + Seq::<Token>::empty() =~= tokens@);
        Ok(tokens)
    }

    /// Runs `tokens` on the stack, from the first on, and returns what they
    /// wrote. Stops at the first token that fails; what the tokens before it
    /// did to the stack, and what the failing one took from it, stays done.
    pub fn execute<'a>(&mut self, tokens: &Vec<Token>) -> (r: Result<String, Error<'a>>)
        ensures
            final(self)@.dictionary == old(self)@.dictionary,
            final(self)@.stack == run(old(self)@.stack, tokens@).stack,
            written(r) == run(old(self)@.stack, tokens@).result,
    {
        let ghost start = self.stack@;
        let mut out = String::new();
        let mut i: usize = 0;
        proof {
            assert(tokens@.skip(0) =~= tokens@);
            lemma_after_nothing(run(start, tokens@));
        }
        while i < tokens.len()
            invariant
                i <= tokens.len(),
                self.dictionary == old(self).dictionary,
                start == old(self).stack@,
                after(out@, run(self.stack@, tokens@.skip(i as int))) == run(start, tokens@),
            decreases tokens.len() - i,
        {
            proof {
                lemma_run_step(self.stack@, tokens@, i as int, out@);
            }
            match execute_token(tokens[i], &mut self.stack, &mut out) {
                Ok(()) => {},
                Err(e) => {
                    return Err(e);
                },
            }
            i += 1;
        }
        proof {
            lemma_after_nothing(silent(self.stack@));
            assert(out@ + Seq::<char>::empty() =~= out@);
        }
        Ok(out)
    }

    /// Evaluates an expression: resolves its words, then runs the tokens.
    /// Where a word is undefined nothing is run.
    pub fn eval_expr<'a>(&mut self, phrase: &'a str) -> (r: Result<String, Error<'a>>)
        ensures
            final(self)@ == evaluate(old(self)@, phrase@).state,
            written(r) == evaluate(old(self)@, phrase@).result,
    {
        let list = split(phrase);
        let tokens = self.tokenize(list.as_slice())?;
        self.execute(&tokens)
    }

    /// Takes a definition, given the text after its marker: the first word
    /// is the name, the tokens of the rest become its body. Fails, and
    /// changes nothing, where there is no name or a word of the body is
    /// undefined.
    pub fn eval_def<'a>(&mut self, phrase: &'a str) -> (r: Result<(), Error<'a>>)
        ensures
            final(self)@ == define(old(self)@, phrase@).state,
            match r {
                Ok(()) => define(old(self)@, phrase@).result == Ok::<Seq<char>, Fault>(
                    Seq::empty(),
                ),
                Err(e) => define(old(self)@, phrase@).result == Err::<Seq<char>, Fault>(e@),
            },
    {
        let list = split(phrase);
        if list.len() == 0 {
            return Err(Error::MalformedDefinition);
        }
        let name = list[0];
        let body = vstd::slice::slice_subrange(list.as_slice(), 1, list.len());
        assert(texts(body@) =~= words(phrase@).drop_first());
        let tokens = self.tokenize(body)?;
        self.dictionary.insert(name.to_owned(), tokens);
        assert(bodies(self.dictionary@) =~= bodies(old(self).dictionary@).insert(name@, tokens@));
        Ok(())
    }

    /// Takes one line: a definition where it begins with `:`, else an
    /// expression. Returns what the line wrote.
    pub fn eval<'a>(&mut self, phrase: &'a str) -> (r: Result<String, Error<'a>>)
        ensures
            final(self)@ == interpret(old(self)@, phrase@).state,
            written(r) == interpret(old(self)@, phrase@).result,
    {
        let n = phrase.unicode_len();
        if n > 0 && phrase.get_char(0) == ':' {
            let rest = phrase.substring_char(1, n);
            assert(rest@ =~= phrase@.skip(1));
            match self.eval_def(rest) {
                Ok(()) => Ok(String::new()),
                Err(e) => Err(e),
            }
        } else {
            self.eval_expr(phrase)
        }
    }
}

impl Default for Machine {
    /// A machine with the starting dictionary and an empty stack.
    fn default() -> (m: Self)
        ensures
            m@ == (MachineState { dictionary: bootstrap(), stack: Seq::empty() }),
    {
        let dup = Token::Builtin(Word::Dup);
        let emit = Token::Builtin(Word::Emit);
        let rot = Token::Builtin(Word::Rot);
        let swap = Token::Builtin(Word::Swap);

        let mut space: Vec<Token> = Vec::new();
        space.push(Token::Number(32));
        space.push(emit);
        let mut cr: Vec<Token> = Vec::new();
        cr.push(Token::Number(13));
        cr.push(emit);
        cr.push(Token::Number(10));
        cr.push(emit);
        let mut over: Vec<Token> = Vec::new();
        over.push(swap);
        over.push(dup);
        over.push(rot);
        over.push(swap);

        let mut dictionary: StringHashMap<Vec<Token>> = StringHashMap::new();
        dictionary.insert("space".to_owned(), space);
        dictionary.insert("cr".to_owned(), cr);
        dictionary.insert("over".to_owned(), over);
        proof {
            reveal_strlit("space");
            reveal_strlit("cr");
            reveal_strlit("over");
            assert("space"@.len() == 5 && "cr"@.len() == 2 && "over"@.len() == 4);
            assert(space@ =~= seq![Token::Number(32), Token::Builtin(Word::Emit)]);
            assert(cr@ =~= seq![
                Token::Number(13),
                Token::Builtin(Word::Emit),
                Token::Number(10),
                Token::Builtin(Word::Emit),
            ]);
            assert(over@ =~= seq![
                Token::Builtin(Word::Swap),
                Token::Builtin(Word::Dup),
                Token::Builtin(Word::Rot),
                Token::Builtin(Word::Swap),
            ]);
            assert(bodies(dictionary@) =~= bootstrap());
        }
        Machine::with_dictionary(dictionary)
    }
}

} // verus!
