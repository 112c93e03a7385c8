//! What can go wrong with a line, and how it is reported.

use vstd::prelude::*;
use vstd::string::StringExecFns;
use crate::number::{digits, numeral};
use crate::text::push_chars;
use crate::word::Word;

verus! {

/// Why a line was refused.
#[derive(Clone, Copy, Debug, PartialEq, Eq)]
pub enum Error<'a> {
    /// A definition that names no word.
    MalformedDefinition,
    /// The primitive found fewer operands on the stack than it takes.
    StackUnderflow(Word),
    /// A word that is no primitive, no number and not in the dictionary.
    UndefinedWord(&'a str),
    /// `emit` took a value that is no Unicode scalar value.
    InvalidCodePoint(i32),
    /// The primitive was asked to divide by zero.
    DivisionByZero(Word),
}

/// An [`Error`] as a mathematical value.
pub enum Fault {
    MalformedDefinition,
    StackUnderflow(Word),
    UndefinedWord(Seq<char>),
    InvalidCodePoint(i32),
    DivisionByZero(Word),
}

impl<'a> View for Error<'a> {
    type V = Fault;

    open spec fn view(&self) -> Fault {
        match *self {
            Error::MalformedDefinition => Fault::MalformedDefinition,
            Error::StackUnderflow(w) => Fault::StackUnderflow(w),
            Error::UndefinedWord(s) => Fault::UndefinedWord(s@),
            Error::InvalidCodePoint(v) => Fault::InvalidCodePoint(v),
            Error::DivisionByZero(w) => Fault::DivisionByZero(w),
        }
    }
}

impl Fault {
    /// The text that reports the fault.
    pub open spec fn message(self) -> Seq<char> {
        match self {
            Fault::MalformedDefinition => "no name specified for definition"@,
            Fault::StackUnderflow(w) => w.name_text() + ": stack underflow"@,
            Fault::UndefinedWord(s) => "undefined word '"@ + s + "'"@,
            Fault::InvalidCodePoint(v) => if v < 0 {
                "emit: out of bounds"@
            } else if v < 16 {
                "emit: invalid unicode 0x0"@ + numeral(v as nat, 16)
            } else {
                "emit: invalid unicode 0x"@ + numeral(v as nat, 16)
            },
            Fault::DivisionByZero(w) => w.name_text() + ": division by zero"@,
        }
    }
}

impl<'a> Error<'a> {
    /// The text that reports the error.
    pub fn message(&self) -> (r: String)
        ensures
            r@ == self@.message(),
    {
        match *self {
            Error::MalformedDefinition => String::from_str("no name specified for definition"),
            Error::StackUnderflow(w) => {
                let mut text = String::from_str(w.name());
                text.append(": stack underflow");
                text
            },
            Error::UndefinedWord(s) => {
                let mut text = String::from_str("undefined word '");
                text.append(s);
                text.append("'");
                text
            },
            Error::InvalidCodePoint(v) => {
                if v < 0 {
                    String::from_str("emit: out of bounds")
                } else {
                    let mut text = if v < 16 {
                        String::from_str("emit: invalid unicode 0x0")
                    } else {
                        String::from_str("emit: invalid unicode 0x")
                    };
                    let hex = digits(v as u32, 16);
                    push_chars(&mut text, &hex);
                    text
                }
            },
            Error::DivisionByZero(w) => {
                let mut text = String::from_str(w.name());
                text.append(": division by zero");
                text
            },
        }
    }
}

} // verus!
