use forth::{Error, Machine, Word};

#[test]
fn every_primitive_underflows_on_an_empty_stack() {
    let cases = [
        (".", Word::Dot),
        ("drop", Word::Drop),
        ("dup", Word::Dup),
        ("emit", Word::Emit),
        ("-", Word::Minus),
        ("mod", Word::Mod),
        ("+", Word::Plus),
        ("rot", Word::Rot),
        ("/", Word::Slash),
        ("/mod", Word::SlashMod),
        ("spaces", Word::Spaces),
        ("*", Word::Star),
        ("swap", Word::Swap),
    ];
    for (line, word) in cases {
        let mut m = Machine::default();
        assert_eq!(m.eval(line), Err(Error::StackUnderflow(word)));
        assert!(m.stack().is_empty());
    }
}

#[test]
fn second_operand_missing_loses_the_first() {
    for (line, word) in [
        ("1 +", Word::Plus),
        ("1 -", Word::Minus),
        ("1 *", Word::Star),
        ("1 /", Word::Slash),
        ("0 /", Word::Slash),
        ("1 mod", Word::Mod),
        ("1 /mod", Word::SlashMod),
        ("1 swap", Word::Swap),
    ] {
        let mut m = Machine::default();
        assert_eq!(m.eval(line), Err(Error::StackUnderflow(word)));
        assert!(m.stack().is_empty());
    }
}

#[test]
fn rot_with_too_few_takes_nothing() {
    let mut m = Machine::default();
    assert_eq!(m.eval("1 2 rot"), Err(Error::StackUnderflow(Word::Rot)));
    assert_eq!(m.stack(), &vec![1, 2]);
    let mut m = Machine::default();
    assert_eq!(m.eval("1 rot"), Err(Error::StackUnderflow(Word::Rot)));
    assert_eq!(m.stack(), &vec![1]);
}

#[test]
fn failure_keeps_what_was_done_before() {
    let mut m = Machine::default();
    assert_eq!(m.eval("1 2 + 4 . drop drop 9"), Err(Error::StackUnderflow(Word::Drop)));
    assert!(m.stack().is_empty());
    let mut m = Machine::default();
    assert_eq!(m.eval("1 2 3 4 0 / 5"), Err(Error::DivisionByZero(Word::Slash)));
    assert_eq!(m.stack(), &vec![1, 2, 3]);
    assert_eq!(m.eval(". . ."), Ok("3 2 1 ".to_string()));
}

#[test]
fn machine_goes_on_after_a_failure() {
    let mut m = Machine::default();
    assert_eq!(m.eval("nothing"), Err(Error::UndefinedWord("nothing")));
    assert_eq!(m.eval("+"), Err(Error::StackUnderflow(Word::Plus)));
    assert_eq!(m.eval(": nothing 0"), Ok(String::new()));
    assert_eq!(m.eval("nothing 1 + ."), Ok("1 ".to_string()));
}

#[test]
fn emit_refuses_what_is_no_scalar_value() {
    for v in [-1, i32::MIN, 0xD800, 0xDBFF, 0xDFFF, 0x110000, i32::MAX] {
        let mut m = Machine::default();
        assert_eq!(m.eval(&format!("7 {} emit 8", v)), Err(Error::InvalidCodePoint(v)));
        assert_eq!(m.stack(), &vec![7]);
    }
}

#[test]
fn messages_name_the_primitive() {
    assert_eq!(Error::StackUnderflow(Word::Dot).message(), "dot: stack underflow");
    assert_eq!(Error::StackUnderflow(Word::Drop).message(), "drop: stack underflow");
    assert_eq!(Error::StackUnderflow(Word::Emit).message(), "emit: stack underflow");
    assert_eq!(Error::StackUnderflow(Word::Minus).message(), "minus: stack underflow");
    assert_eq!(Error::StackUnderflow(Word::Mod).message(), "mod: stack underflow");
    assert_eq!(Error::StackUnderflow(Word::Plus).message(), "plus: stack underflow");
    assert_eq!(Error::StackUnderflow(Word::Rot).message(), "rot: stack underflow");
    assert_eq!(Error::StackUnderflow(Word::Slash).message(), "slash: stack underflow");
    assert_eq!(Error::StackUnderflow(Word::SlashMod).message(), "slash-mod: stack underflow");
    assert_eq!(Error::StackUnderflow(Word::Spaces).message(), "spaces: stack underflow");
    assert_eq!(Error::StackUnderflow(Word::Star).message(), "star: stack underflow");
    assert_eq!(Error::StackUnderflow(Word::Swap).message(), "swap: stack underflow");
    assert_eq!(Error::DivisionByZero(Word::Slash).message(), "slash: division by zero");
    assert_eq!(Error::DivisionByZero(Word::Mod).message(), "mod: division by zero");
    assert_eq!(Error::DivisionByZero(Word::SlashMod).message(), "slash-mod: division by zero");
    assert_eq!(Word::SlashMod.name(), "slash-mod");
}

#[test]
fn messages_of_emit() {
    assert_eq!(Error::InvalidCodePoint(-1).message(), "emit: out of bounds");
    assert_eq!(Error::InvalidCodePoint(i32::MIN).message(), "emit: out of bounds");
    assert_eq!(Error::InvalidCodePoint(0xD800).message(), "emit: invalid unicode 0xd800");
    assert_eq!(Error::InvalidCodePoint(0x110000).message(), "emit: invalid unicode 0x110000");
    for v in [0, 5, 15, 16, 255, 256, 0xD800, 0xDFFF, 0x110000, 0xABCDEF, i32::MAX] {
        assert_eq!(
            Error::InvalidCodePoint(v).message(),
            format!("emit: invalid unicode {:#04x}", v)
        );
    }
}

#[test]
fn message_of_an_undefined_word() {
    assert_eq!(Error::UndefinedWord("").message(), "undefined word ''");
    assert_eq!(Error::UndefinedWord("caf\u{e9}").message(), "undefined word 'caf\u{e9}'");
    let mut m = Machine::default();
    match m.eval("1 caf\u{e9} 2") {
        Err(e) => assert_eq!(e.message(), "undefined word 'caf\u{e9}'"),
        Ok(_) => panic!("the word is not defined"),
    }
}
