//! Laws that hold of every machine and every line.

use vstd::prelude::*;
use crate::arith::{lemma_division, lemma_wrap_in_range, quotient, remainder, wrap};
use crate::error::Fault;
use crate::model::{
    after, apply, bootstrap, interpret, is_definition, perform, resolve, run, silent, Answer,
    MachineState,
};
use crate::number::{
    decimal, is_digit, law_literal_of_decimal, lemma_numeral_value, literal, numeral,
};
use crate::text::{blank_free, is_blank, lemma_words_after_blank, lemma_words_after_word, words};
use crate::word::{law_primitive_of_spelling, primitive, reveal_spellings, Token, Word};

verus! {

/// Whether `w` on a second operand `b` gives one number from two: `+`, `-`
/// and `*` always, `/` and `mod` where `b` is not zero.
pub open spec fn computes(w: Word, b: int) -> bool {
    w == Word::Plus || w == Word::Minus || w == Word::Star || ((w == Word::Slash || w == Word::Mod)
        && b != 0)
}

/// The mathematical result of an arithmetic primitive on `a` and `b`; zero
/// for the primitives that are none.
pub open spec fn exact(w: Word, a: int, b: int) -> int {
    match w {
        Word::Plus => a + b,
        Word::Minus => a - b,
        Word::Star => a * b,
        Word::Slash => quotient(a, b),
        Word::Mod => remainder(a, b),
        _ => 0,
    }
}

/// The line that writes `a`, `b` and the primitive `w`, with one space
/// between them.
pub open spec fn arithmetic_line(a: i32, b: i32, w: Word) -> Seq<char> {
    decimal(a as int) + seq![' '] + decimal(b as int) + seq![' '] + w.spelling()
}

/// Two numbers and then `+`, `-` or `*`, or `/` or `mod` with a divisor
/// that is not zero, leave on top of the stack the wrapped result and write
/// nothing; the result itself where it fits in 32 bits.
pub proof fn law_arithmetic(s: Seq<i32>, a: i32, b: i32, w: Word)
    requires
        computes(w, b as int),
    ensures
        run(s, seq![Token::Number(a), Token::Number(b), Token::Builtin(w)]) == silent(
            s.push(wrap(exact(w, a as int, b as int))),
        ),
        i32::MIN <= exact(w, a as int, b as int) <= i32::MAX ==> wrap(exact(w, a as int, b as int))
            == exact(w, a as int, b as int),
{
    let tokens = seq![Token::Number(a), Token::Number(b), Token::Builtin(w)];
    lemma_run_three(s, tokens);
    lemma_perform_arithmetic(s, a, b, w);
    let x = exact(w, a as int, b as int);
    if i32::MIN <= x <= i32::MAX {
        lemma_wrap_in_range(x);
    }
}

/// Two numbers and then `/mod`, with a divisor that is not zero, leave the
/// remainder and on top of it the quotient: what `mod` and `/` leave. The
/// two are those of division rounded toward zero, and exact but for the
/// quotient of `i32::MIN` by `-1`.
pub proof fn law_slash_mod(s: Seq<i32>, a: i32, b: i32)
    requires
        b != 0,
    ensures
        run(s, seq![Token::Number(a), Token::Number(b), Token::Builtin(Word::SlashMod)]) == silent(
            s.push(wrap(remainder(a as int, b as int))).push(wrap(quotient(a as int, b as int))),
        ),
        run(s, seq![Token::Number(a), Token::Number(b), Token::Builtin(Word::Mod)]) == silent(
            s.push(wrap(remainder(a as int, b as int))),
        ),
        run(s, seq![Token::Number(a), Token::Number(b), Token::Builtin(Word::Slash)]) == silent(
            s.push(wrap(quotient(a as int, b as int))),
        ),
        wrap(remainder(a as int, b as int)) == remainder(a as int, b as int),
        !(a == i32::MIN && b == -1) ==> wrap(quotient(a as int, b as int)) == quotient(
            a as int,
            b as int,
        ),
        a == b * quotient(a as int, b as int) + remainder(a as int, b as int),
{
    lemma_quotient_fits(a, b);
    lemma_wrap_in_range(remainder(a as int, b as int));
    if !(a == i32::MIN && b == -1) {
        lemma_wrap_in_range(quotient(a as int, b as int));
    }
    assert(perform(Word::SlashMod, s.push(a).push(b)) == silent(
        s.push(wrap(remainder(a as int, b as int))).push(wrap(quotient(a as int, b as int))),
    )) by {
        let s2 = s.push(a).push(b);
        assert(s2.take(s2.len() - 2) =~= s);
    }
    lemma_run_three(s, seq![Token::Number(a), Token::Number(b), Token::Builtin(Word::SlashMod)]);
    law_arithmetic(s, a, b, Word::Mod);
    law_arithmetic(s, a, b, Word::Slash);
}

/// The line of two numbers and `+`, `-` or `*`, or `/` or `mod` with a
/// divisor that is not zero, is an expression that pushes the wrapped
/// result, writes nothing and leaves the dictionary alone.
pub proof fn law_arithmetic_line(m: MachineState, a: i32, b: i32, w: Word)
    requires
        computes(w, b as int),
    ensures
        interpret(m, arithmetic_line(a, b, w)) == (Answer {
            state: MachineState {
                dictionary: m.dictionary,
                stack: m.stack.push(wrap(exact(w, a as int, b as int))),
            },
            result: Ok(Seq::empty()),
        }),
{
    lemma_line_resolves(m.dictionary, a, b, w);
    law_arithmetic(m.stack, a, b, w);
}

/// The line of two numbers and `/mod`, with a divisor that is not zero,
/// pushes the remainder and then the quotient.
pub proof fn law_slash_mod_line(m: MachineState, a: i32, b: i32)
    requires
        b != 0,
    ensures
        interpret(m, arithmetic_line(a, b, Word::SlashMod)) == (Answer {
            state: MachineState {
                dictionary: m.dictionary,
                stack: m.stack.push(wrap(remainder(a as int, b as int))).push(
                    wrap(quotient(a as int, b as int)),
                ),
            },
            result: Ok(Seq::empty()),
        }),
{
    lemma_line_resolves(m.dictionary, a, b, Word::SlashMod);
    law_slash_mod(m.stack, a, b);
}

/// The starting word `over` copies the second number from the top onto the
/// top, and writes nothing.
pub proof fn law_over(s: Seq<i32>, a: i32, b: i32)
    ensures
        run(s.push(a).push(b), bootstrap()["over"@]) == silent(s.push(a).push(b).push(a)),
{
    reveal_strlit("space");
    reveal_strlit("cr");
    reveal_strlit("over");
    let t0 = bootstrap()["over"@];
    let t1 = t0.drop_first();
    let t2 = t1.drop_first();
    let t3 = t2.drop_first();
    let t4 = t3.drop_first();
    let s0 = s.push(a).push(b);
    let s1 = s.push(b).push(a);
    let s2 = s1.push(a);
    let s3 = s.push(a).push(a).push(b);
    let s4 = s0.push(a);
    assert(t0.len() == 4 && t1[0] == t0[1] && t2[0] == t0[2] && t3[0] == t0[3] && t4.len() == 0);
    assert(s0.take(s0.len() - 2) =~= s);
    assert(s2.remove(s2.len() - 3).push(s2[s2.len() - 3]) =~= s3);
    assert(s3.take(s3.len() - 2).push(b).push(a) =~= s4);
    assert(run(s4, t4) == silent(s4));
    assert(run(s3, t3) == silent(s4)) by {
        assert(Seq::<char>::empty() + Seq::<char>::empty() =~= Seq::<char>::empty());
    }
    assert(run(s2, t2) == silent(s4));
    assert(run(s1, t1) == silent(s4));
}

/// Whether the word is looked up in the dictionary: it spells no primitive
/// and is no number.
pub open spec fn looked_up(word: Seq<char>) -> bool {
    primitive(word) is None && literal(word) is None
}

/// Whether a list of words uses `name` as a defined word.
pub open spec fn refers(list: Seq<Seq<char>>, name: Seq<char>) -> bool {
    looked_up(name) && list.contains(name)
}

/// The words of a definition, its name first.
pub open spec fn definition_words(line: Seq<char>) -> Seq<Seq<char>> {
    words(line.skip(1))
}

/// Words that do not use `name` as a defined word resolve to the same
/// tokens whatever body `name` has.
pub proof fn law_resolve_ignores_others(
    dictionary: Map<Seq<char>, Seq<Token>>,
    name: Seq<char>,
    body: Seq<Token>,
    list: Seq<Seq<char>>,
)
    requires
        !refers(list, name),
    ensures
        resolve(dictionary.insert(name, body), list) == resolve(dictionary, list),
    decreases list.len(),
{
    if list.len() > 0 {
        let rest = list.drop_first();
        assert(list[0] != name || !looked_up(name)) by {
            if list[0] == name {
                assert(list.contains(name));
            }
        }
        assert(!rest.contains(name) || !looked_up(name)) by {
            if rest.contains(name) {
                let i = choose|i: int| 0 <= i < rest.len() && rest[i] == name;
                assert(list[i + 1] == name);
            }
        }
        law_resolve_ignores_others(dictionary, name, body, rest);
    }
}

/// A definition leaves the stack alone, and every word but the one it
/// names as it was: defined or not, and with the body it had.
pub proof fn law_definition_keeps_others(m: MachineState, line: Seq<char>, other: Seq<char>)
    requires
        is_definition(line),
        definition_words(line).len() > 0 ==> other != definition_words(line)[0],
    ensures
        interpret(m, line).state.stack == m.stack,
        interpret(m, line).state.dictionary.contains_key(other) == m.dictionary.contains_key(other),
        interpret(m, line).state.dictionary[other] == m.dictionary[other],
{
}

/// After a definition, an expression that does not use the defined name as
/// a defined word does what it did before: the same result, the same stack.
/// So a word whose body was made with the name's old body keeps behaving as
/// it did.
pub proof fn law_definition_snapshot(m: MachineState, definition: Seq<char>, line: Seq<char>)
    requires
        is_definition(definition),
        !is_definition(line),
        definition_words(definition).len() > 0 ==> !refers(
            words(line),
            definition_words(definition)[0],
        ),
    ensures
        interpret(interpret(m, definition).state, line).result == interpret(m, line).result,
        interpret(interpret(m, definition).state, line).state.stack == interpret(
            m,
            line,
        ).state.stack,
{
    let list = definition_words(definition);
    if list.len() > 0 {
        if let Ok(tokens) = resolve(m.dictionary, list.drop_first()) {
            law_resolve_ignores_others(m.dictionary, list[0], tokens, words(line));
        }
    }
}

/// Taking the same definition twice gives what taking it once gives: the
/// same machine and the same result. This holds unless the body uses the
/// name itself as a defined word and the name had another body before.
pub proof fn law_definition_idempotent(m: MachineState, line: Seq<char>)
    requires
        is_definition(line),
        definition_words(line).len() > 0 && refers(
            definition_words(line).drop_first(),
            definition_words(line)[0],
        ) ==> (match resolve(m.dictionary, definition_words(line).drop_first()) {
            Ok(tokens) => m.dictionary[definition_words(line)[0]] == tokens,
            Err(_) => true,
        }),
    ensures
        interpret(interpret(m, line).state, line) == interpret(m, line),
{
    let list = definition_words(line);
    if list.len() > 0 {
        let name = list[0];
        let body = list.drop_first();
        if let Ok(tokens) = resolve(m.dictionary, body) {
            let next = m.dictionary.insert(name, tokens);
            if refers(body, name) {
                lemma_resolved_words_are_known(m.dictionary, body, name);
                assert(next =~= m.dictionary);
            } else {
                law_resolve_ignores_others(m.dictionary, name, tokens, body);
            }
            assert(next.insert(name, tokens) =~= next);
        }
    }
}

/// An arithmetic primitive replaces the two numbers on top of the stack with
/// its wrapped result.
proof fn lemma_perform_arithmetic(s: Seq<i32>, a: i32, b: i32, w: Word)
    requires
        computes(w, b as int),
    ensures
        perform(w, s.push(a).push(b)) == silent(s.push(wrap(exact(w, a as int, b as int)))),
{
    let s2 = s.push(a).push(b);
    assert(s2.take(s2.len() - 2) =~= s);
}

/// The remainder always fits in 32 bits, and the quotient does except for
/// `i32::MIN` by `-1`.
proof fn lemma_quotient_fits(a: i32, b: i32)
    requires
        b != 0,
    ensures
        i32::MIN <= remainder(a as int, b as int) <= i32::MAX,
        !(a == i32::MIN && b == -1) ==> i32::MIN <= quotient(a as int, b as int) <= i32::MAX,
        a == b * quotient(a as int, b as int) + remainder(a as int, b as int),
{
    lemma_division(a as int, b as int);
    let q = quotient(a as int, b as int);
    if q > i32::MAX {
        assert(a == i32::MIN && q == 0x8000_0000);
        assert(b * q == b * 0x8000_0000);
        assert(b == -1);
    }
}

/// Running three tokens is applying them one after the other, where the
/// first two write nothing and do not fail.
proof fn lemma_run_three(s: Seq<i32>, tokens: Seq<Token>)
    requires
        tokens.len() == 3,
        apply(tokens[0], s).result == Ok::<Seq<char>, Fault>(Seq::empty()),
        apply(tokens[1], apply(tokens[0], s).stack).result == Ok::<Seq<char>, Fault>(
            Seq::empty(),
        ),
    ensures
        run(s, tokens) == after(
            Seq::empty(),
            apply(tokens[2], apply(tokens[1], apply(tokens[0], s).stack).stack),
        ),
{
    let t1 = tokens.drop_first();
    let t2 = t1.drop_first();
    let t3 = t2.drop_first();
    let s1 = apply(tokens[0], s).stack;
    let s2 = apply(tokens[1], s1).stack;
    let last = apply(tokens[2], s2);
    assert(t1[0] == tokens[1]);
    assert(t2[0] == tokens[2]);
    assert(t3.len() == 0);
    assert(run(last.stack, t3) == silent(last.stack));
    assert(run(s2, t2).stack == last.stack);
    match last.result {
        Ok(text) => {
            assert(text + Seq::<char>::empty() =~= text);
            assert(Seq::<char>::empty() + text =~= text);
        },
        Err(_) => {},
    }
    assert(run(s2, t2) == last);
    assert(run(s1, t1) == after(Seq::empty(), last));
}

/// A decimal numeral is one word that spells no primitive and begins with
/// no `:`.
proof fn lemma_decimal_is_a_number(v: i32)
    ensures
        decimal(v as int).len() > 0,
        blank_free(decimal(v as int)),
        decimal(v as int)[0] != ':',
        primitive(decimal(v as int)) is None,
        literal(decimal(v as int)) == Some(v),
{
    let s = decimal(v as int);
    law_literal_of_decimal(v);
    reveal_spellings();
    if v < 0 {
        let tail = numeral((-v) as nat, 10);
        lemma_numeral_value((-v) as nat);
        assert(s[0] == '-');
        assert(s.len() >= 2);
        assert forall|i: int| 0 <= i < s.len() implies !is_blank(#[trigger] s[i]) by {
            if i > 0 {
                assert(s[i] == tail[i - 1]);
                assert(is_digit(tail[i - 1]));
            }
        }
    } else {
        lemma_numeral_value(v as nat);
        assert(is_digit(s[0]));
        assert forall|i: int| 0 <= i < s.len() implies !is_blank(#[trigger] s[i]) by {
            assert(is_digit(s[i]));
        }
    }
    assert("."@[0] == '.' && "-"@[0] == '-' && "+"@[0] == '+' && "*"@[0] == '*' && "/"@[0] == '/');
    assert("mod"@[0] == 'm' && "/mod"@[0] == '/' && "emit"@[0] == 'e' && "drop"@[0] == 'd');
    assert("dup"@[0] == 'd' && "rot"@[0] == 'r' && "spaces"@[0] == 's' && "swap"@[0] == 's');
    assert("-"@.len() == 1);
}

/// The line of two numbers and a primitive is an expression of three
/// tokens, whatever the dictionary holds.
proof fn lemma_line_resolves(dictionary: Map<Seq<char>, Seq<Token>>, a: i32, b: i32, w: Word)
    ensures
        arithmetic_line(a, b, w).len() > 0,
        arithmetic_line(a, b, w)[0] != ':',
        resolve(dictionary, words(arithmetic_line(a, b, w))) == Ok::<Seq<Token>, Fault>(
            seq![Token::Number(a), Token::Number(b), Token::Builtin(w)],
        ),
{
    let first = decimal(a as int);
    let second = decimal(b as int);
    let third = w.spelling();
    let line = arithmetic_line(a, b, w);
    lemma_decimal_is_a_number(a);
    lemma_decimal_is_a_number(b);
    law_primitive_of_spelling(w);
    assert(line[0] == first[0]);
    let none = Seq::<char>::empty();
    let tail2 = seq![' '] + third;
    let tail1 = seq![' '] + (second + tail2);
    assert(line =~= first + tail1);
    assert(third + none =~= third);
    lemma_words_after_word(first, tail1);
    lemma_words_after_blank(' ', second + tail2);
    lemma_words_after_word(second, tail2);
    lemma_words_after_blank(' ', third);
    lemma_words_after_word(third, none);
    let list = seq![first, second, third];
    assert(words(none) =~= Seq::<Seq<char>>::empty());
    assert(words(line) =~= list);
    let l1 = list.drop_first();
    let l2 = l1.drop_first();
    assert(l1[0] == second);
    assert(l2[0] == third);
    assert(l2.drop_first().len() == 0);
    assert(resolve(dictionary, l2.drop_first()) == Ok::<Seq<Token>, Fault>(Seq::empty()));
    assert(resolve(dictionary, l2) == Ok::<Seq<Token>, Fault>(seq![Token::Builtin(w)])) by {
        assert(seq![Token::Builtin(w)] + Seq::<Token>::empty() =~= seq![Token::Builtin(w)]);
    }
    assert(resolve(dictionary, l1) == Ok::<Seq<Token>, Fault>(
        seq![Token::Number(b), Token::Builtin(w)],
    )) by {
        assert(seq![Token::Number(b)] + seq![Token::Builtin(w)] =~= seq![
            Token::Number(b),
            Token::Builtin(w),
        ]);
    }
    assert(seq![Token::Number(a)] + seq![Token::Number(b), Token::Builtin(w)] =~= seq![
        Token::Number(a),
        Token::Number(b),
        Token::Builtin(w),
    ]);
}

/// A word that a list uses as a defined word is in the dictionary where the
/// list resolves.
proof fn lemma_resolved_words_are_known(
    dictionary: Map<Seq<char>, Seq<Token>>,
    list: Seq<Seq<char>>,
    name: Seq<char>,
)
    requires
        refers(list, name),
        resolve(dictionary, list) is Ok,
    ensures
        dictionary.contains_key(name),
    decreases list.len(),
{
    if list[0] != name {
        let rest = list.drop_first();
        let i = choose|i: int| 0 <= i < list.len() && list[i] == name;
        assert(rest[i - 1] == name);
        lemma_resolved_words_are_known(dictionary, rest, name);
    }
}

} // verus!
