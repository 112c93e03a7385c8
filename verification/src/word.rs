//! The primitive operations and the tokens a line resolves to.

use vstd::prelude::*;
use crate::text::spells;

verus! {

/// A primitive stack operation.
#[derive(Clone, Copy, Debug, PartialEq, Eq, Structural)]
pub enum Word {
    Dot,
    Drop,
    Dup,
    Emit,
    Minus,
    Mod,
    Plus,
    Rot,
    Slash,
    SlashMod,
    Spaces,
    Star,
    Swap,
}

/// One executable unit: a primitive or a number to push.
#[derive(Clone, Copy, Debug, PartialEq, Eq, Structural)]
pub enum Token {
    Builtin(Word),
    Number(i32),
}

/// The primitive that the text `s` spells, if any.
pub open spec fn primitive(s: Seq<char>) -> Option<Word> {
    if s == "."@ {
        Some(Word::Dot)
    } else if s == "-"@ {
        Some(Word::Minus)
    } else if s == "+"@ {
        Some(Word::Plus)
    } else if s == "*"@ {
        Some(Word::Star)
    } else if s == "/"@ {
        Some(Word::Slash)
    } else if s == "mod"@ {
        Some(Word::Mod)
    } else if s == "/mod"@ {
        Some(Word::SlashMod)
    } else if s == "emit"@ {
        Some(Word::Emit)
    } else if s == "drop"@ {
        Some(Word::Drop)
    } else if s == "dup"@ {
        Some(Word::Dup)
    } else if s == "rot"@ {
        Some(Word::Rot)
    } else if s == "spaces"@ {
        Some(Word::Spaces)
    } else if s == "swap"@ {
        Some(Word::Swap)
    } else {
        None
    }
}

impl Word {
    /// How the primitive is written in a line.
    pub open spec fn spelling(self) -> Seq<char> {
        match self {
            Word::Dot => "."@,
            Word::Drop => "drop"@,
            Word::Dup => "dup"@,
            Word::Emit => "emit"@,
            Word::Minus => "-"@,
            Word::Mod => "mod"@,
            Word::Plus => "+"@,
            Word::Rot => "rot"@,
            Word::Slash => "/"@,
            Word::SlashMod => "/mod"@,
            Word::Spaces => "spaces"@,
            Word::Star => "*"@,
            Word::Swap => "swap"@,
        }
    }

    /// The name under which the primitive is reported.
    pub open spec fn name_text(self) -> Seq<char> {
        match self {
            Word::Dot => "dot"@,
            Word::Drop => "drop"@,
            Word::Dup => "dup"@,
            Word::Emit => "emit"@,
            Word::Minus => "minus"@,
            Word::Mod => "mod"@,
            Word::Plus => "plus"@,
            Word::Rot => "rot"@,
            Word::Slash => "slash"@,
            Word::SlashMod => "slash-mod"@,
            Word::Spaces => "spaces"@,
            Word::Star => "star"@,
            Word::Swap => "swap"@,
        }
    }

    /// The name under which the primitive is reported.
    pub fn name(self) -> (r: &'static str)
        ensures
            r@ == self.name_text(),
    {
        match self {
            Word::Dot => "dot",
            Word::Drop => "drop",
            Word::Dup => "dup",
            Word::Emit => "emit",
            Word::Minus => "minus",
            Word::Mod => "mod",
            Word::Plus => "plus",
            Word::Rot => "rot",
            Word::Slash => "slash",
            Word::SlashMod => "slash-mod",
            Word::Spaces => "spaces",
            Word::Star => "star",
            Word::Swap => "swap",
        }
    }

    /// Looks `text` up among the primitives' spellings.
    pub fn parse(text: &[char]) -> (r: Option<Word>)
        ensures
            r == primitive(text@),
    {
        if spells(text, ".") {
            Some(Word::Dot)
        } else if spells(text, "-") {
            Some(Word::Minus)
        } else if spells(text, "+") {
            Some(Word::Plus)
        } else if spells(text, "*") {
            Some(Word::Star)
        } else if spells(text, "/") {
            Some(Word::Slash)
        } else if spells(text, "mod") {
            Some(Word::Mod)
        } else if spells(text, "/mod") {
            Some(Word::SlashMod)
        } else if spells(text, "emit") {
            Some(Word::Emit)
        } else if spells(text, "drop") {
            Some(Word::Drop)
        } else if spells(text, "dup") {
            Some(Word::Dup)
        } else if spells(text, "rot") {
            Some(Word::Rot)
        } else if spells(text, "spaces") {
            Some(Word::Spaces)
        } else if spells(text, "swap") {
            Some(Word::Swap)
        } else {
            None
        }
    }
}

/// Shows what each spelling of a primitive holds.
pub proof fn reveal_spellings()
    ensures
        "."@ == seq!['.'],
        "-"@ == seq!['-'],
        "+"@ == seq!['+'],
        "*"@ == seq!['*'],
        "/"@ == seq!['/'],
        "mod"@ == seq!['m', 'o', 'd'],
        "/mod"@ == seq!['/', 'm', 'o', 'd'],
        "emit"@ == seq!['e', 'm', 'i', 't'],
        "drop"@ == seq!['d', 'r', 'o', 'p'],
        "dup"@ == seq!['d', 'u', 'p'],
        "rot"@ == seq!['r', 'o', 't'],
        "spaces"@ == seq!['s', 'p', 'a', 'c', 'e', 's'],
        "swap"@ == seq!['s', 'w', 'a', 'p'],
{
    reveal_strlit(".");
    reveal_strlit("-");
    reveal_strlit("+");
    reveal_strlit("*");
    reveal_strlit("/");
    reveal_strlit("mod");
    reveal_strlit("/mod");
    reveal_strlit("emit");
    reveal_strlit("drop");
    reveal_strlit("dup");
    reveal_strlit("rot");
    reveal_strlit("spaces");
    reveal_strlit("swap");
    assert("."@ =~= seq!['.']);
    assert("-"@ =~= seq!['-']);
    assert("+"@ =~= seq!['+']);
    assert("*"@ =~= seq!['*']);
    assert("/"@ =~= seq!['/']);
    assert("mod"@ =~= seq!['m', 'o', 'd']);
    assert("/mod"@ =~= seq!['/', 'm', 'o', 'd']);
    assert("emit"@ =~= seq!['e', 'm', 'i', 't']);
    assert("drop"@ =~= seq!['d', 'r', 'o', 'p']);
    assert("dup"@ =~= seq!['d', 'u', 'p']);
    assert("rot"@ =~= seq!['r', 'o', 't']);
    assert("spaces"@ =~= seq!['s', 'p', 'a', 'c', 'e', 's']);
    assert("swap"@ =~= seq!['s', 'w', 'a', 'p']);
}

/// Each primitive is found under its spelling, and a spelling is one word
/// that begins with a character other than `:`.
pub proof fn law_primitive_of_spelling(w: Word)
    ensures
        primitive(w.spelling()) == Some(w),
        w.spelling().len() > 0,
        w.spelling()[0] != ':',
        crate::text::blank_free(w.spelling()),
{
    reveal_spellings();
    let s = w.spelling();
    assert(s.len() == 1 || s.len() == 3 || s.len() == 4 || s.len() == 6);
    assert(s[0] == '.' || s[0] == '-' || s[0] == '+' || s[0] == '*' || s[0] == '/' || s[0] == 'm'
        || s[0] == 'e' || s[0] == 'd' || s[0] == 'r' || s[0] == 's');
    assert("."@[0] == '.' && "-"@[0] == '-' && "+"@[0] == '+' && "*"@[0] == '*' && "/"@[0] == '/');
    assert("mod"@[0] == 'm' && "/mod"@[0] == '/' && "emit"@[0] == 'e' && "drop"@[0] == 'd');
    assert("dup"@[0] == 'd' && "rot"@[0] == 'r' && "spaces"@[0] == 's' && "swap"@[0] == 's');
    assert("."@.len() == 1 && "-"@.len() == 1 && "+"@.len() == 1 && "*"@.len() == 1 && "/"@.len()
        == 1);
    assert("mod"@.len() == 3 && "/mod"@.len() == 4 && "emit"@.len() == 4 && "drop"@.len() == 4);
    assert("dup"@.len() == 3 && "rot"@.len() == 3 && "spaces"@.len() == 6 && "swap"@.len() == 4);
}

} // verus!
